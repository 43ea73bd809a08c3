//! Turning an object's `.data` section into a file of the payload.
//!
//! The section's relocations are sorted into two chains, internal ones that
//! point into the section itself and external ones that point at a symbol of
//! another input, and both chains are rewritten into the section's bytes.

use crate::error::{Failure, LinkError};
use crate::halfword::from_be32;
use crate::objfile::{
    object_section, read_section, ObjReloc, ObjSection, RelocTarget, RelocView, SectionView,
    TargetView,
};
use crate::reloc::{relocate, relocated};
use crate::symbols::{Sym, SymMap};
use vstd::prelude::*;

verus! {

/// The name of the section that is linked, and of the symbol that stands for
/// it in relocations that point into the section itself.
pub const DATA_SECTION: &'static str = ".data";

/// What a relocation was found to be.
pub enum Class {
    /// It points into the section itself; `value` is the displacement that
    /// the site held.
    Internal { site: usize, value: u32 },
    /// It points at a symbol that input `file` defines at address `value`.
    External { site: usize, value: u32, file: u16 },
}

/// The relocations of a section, sorted.
pub struct Chains {
    /// Site and displacement of each internal relocation, in order.
    pub internal: Seq<(usize, u32)>,
    /// Site and target address of each external relocation, in order.
    pub external: Seq<(usize, u32)>,
    /// The defining input of each external relocation, in order.
    pub externs: Seq<u16>,
}

/// A file of the payload before layout: its bytes, the inputs it refers to,
/// and where its two chains of relocations start.
#[derive(Debug, Clone, PartialEq, Eq)]
pub struct RelInfo {
    pub data: Vec<u8>,
    pub externs: Option<Vec<u16>>,
    pub inreloc: Option<u32>,
    pub exreloc: Option<u32>,
}

/// [`RelInfo`] in specifications.
pub struct RelInfoView {
    pub data: Seq<u8>,
    pub externs: Option<Seq<u16>>,
    pub inreloc: Option<u32>,
    pub exreloc: Option<u32>,
}

impl View for RelInfo {
    type V = RelInfoView;

    open spec fn view(&self) -> RelInfoView {
        RelInfoView {
            data: self.data@,
            externs: match self.externs {
                Some(ids) => Some(ids@),
                None => None,
            },
            inreloc: self.inreloc,
            exreloc: self.exreloc,
        }
    }
}

/// A result of [`RelInfo`] as specifications speak of it.
pub open spec fn rel_outcome(r: Result<RelInfo, LinkError>) -> Result<RelInfoView, Failure> {
    match r {
        Ok(info) => Ok(info@),
        Err(e) => Err(e@),
    }
}

/// What one relocation is, or why the section cannot be linked. The width is
/// looked at first, then the target; a site that is read must lie within
/// the section.
pub open spec fn classify(data: Seq<u8>, index: Map<Seq<char>, Sym>, r: RelocView) -> Result<
    Class,
    Failure,
> {
    if r.size != 32 {
        Err(Failure::UnsupportedRelocWidth(r.size))
    } else {
        match r.target {
            TargetView::Symbol(Some(name)) => {
                if name == DATA_SECTION@ {
                    if r.offset + 4 > data.len() {
                        Err(Failure::OutOfBounds)
                    } else {
                        Ok(
                            Class::Internal {
                                site: r.offset as usize,
                                value: from_be32(
                                    data.subrange(r.offset as int, r.offset as int + 4),
                                ),
                            },
                        )
                    }
                } else if !index.dom().contains(name) {
                    Err(Failure::UnresolvedSymbol(name))
                } else if r.offset > usize::MAX {
                    Err(Failure::OutOfBounds)
                } else {
                    Ok(
                        Class::External {
                            site: r.offset as usize,
                            value: index[name].addr,
                            file: index[name].file,
                        },
                    )
                }
            },
            TargetView::Symbol(None) => Err(Failure::ObjectParse),
            _ => Err(Failure::UnsupportedRelocTarget),
        }
    }
}

/// The chains after the first `n` relocations, or the failure of the first
/// relocation among them that cannot be sorted.
pub open spec fn sorted(data: Seq<u8>, index: Map<Seq<char>, Sym>, relocs: Seq<RelocView>, n: int) -> Result<
    Chains,
    Failure,
>
    decreases n,
{
    if n <= 0 {
        Ok(Chains { internal: Seq::empty(), external: Seq::empty(), externs: Seq::empty() })
    } else {
        match sorted(data, index, relocs, n - 1) {
            Err(e) => Err(e),
            Ok(c) => match classify(data, index, relocs[n - 1]) {
                Err(e) => Err(e),
                Ok(Class::Internal { site, value }) => Ok(
                    Chains { internal: c.internal.push((site, value)), ..c },
                ),
                Ok(Class::External { site, value, file }) => Ok(
                    Chains {
                        external: c.external.push((site, value)),
                        externs: c.externs.push(file),
                        ..c
                    },
                ),
            },
        }
    }
}

/// Where a chain starts, as the table stores it.
pub open spec fn first_site(chain: Seq<(usize, u32)>) -> Result<Option<u32>, Failure> {
    if chain.len() == 0 {
        Ok(None)
    } else if chain[0].0 > u32::MAX {
        Err(Failure::Overflow(chain[0].0 as u64))
    } else {
        Ok(Some(chain[0].0 as u32))
    }
}

/// The file that a section becomes: its relocations are sorted, the
/// internal chain is rewritten, then the external chain, and the first
/// failure on the way decides.
pub open spec fn relocated_section(section: SectionView, index: Map<Seq<char>, Sym>) -> Result<
    RelInfoView,
    Failure,
> {
    match sorted(section.data, index, section.relocs, section.relocs.len() as int) {
        Err(e) => Err(e),
        Ok(c) => {
            let inner = relocated(section.data, c.internal, 0);
            let outer = relocated(inner.0, c.external, 0);
            if inner.1 is Some {
                Err(inner.1->Some_0)
            } else if outer.1 is Some {
                Err(outer.1->Some_0)
            } else {
                match first_site(c.internal) {
                    Err(e) => Err(e),
                    Ok(inreloc) => match first_site(c.external) {
                        Err(e) => Err(e),
                        Ok(exreloc) => Ok(
                            RelInfoView {
                                data: outer.0,
                                externs: if c.externs.len() == 0 {
                                    None
                                } else {
                                    Some(c.externs)
                                },
                                inreloc,
                                exreloc,
                            },
                        ),
                    },
                }
            }
        },
    }
}

/// The file that an object's bytes become.
pub open spec fn relocated_object(contents: Seq<u8>, index: Map<Seq<char>, Sym>) -> Result<
    RelInfoView,
    Failure,
> {
    match object_section(contents, DATA_SECTION@) {
        None => Err(Failure::ObjectParse),
        Some(None) => Err(Failure::MissingDataSection),
        Some(Some(section)) => relocated_section(section, index),
    }
}

/// Once a relocation cannot be sorted, the relocations after it are not
/// looked at.
pub proof fn lemma_sorted_stops(
    data: Seq<u8>,
    index: Map<Seq<char>, Sym>,
    relocs: Seq<RelocView>,
    n: int,
    m: int,
)
    requires
        n <= m,
        sorted(data, index, relocs, n) is Err,
    ensures
        sorted(data, index, relocs, m) == sorted(data, index, relocs, n),
    decreases m - n,
{
    if n < m {
        lemma_sorted_stops(data, index, relocs, n, m - 1);
    }
}

/// Where the relocations of a section can be sorted, each has a width of 32
/// bits and points at a named symbol, and every symbol that an external one
/// points at is defined in the index.
pub proof fn lemma_sorted_targets_defined(
    data: Seq<u8>,
    index: Map<Seq<char>, Sym>,
    relocs: Seq<RelocView>,
    n: int,
)
    requires
        0 <= n <= relocs.len(),
        sorted(data, index, relocs, n) is Ok,
    ensures
        forall|i: int|
            0 <= i < n ==> {
                &&& (#[trigger] relocs[i]).size == 32
                &&& relocs[i].target matches TargetView::Symbol(Some(name))
                &&& name != DATA_SECTION@ ==> index.dom().contains(name)
            },
    decreases n,
{
    if n > 0 {
        lemma_sorted_targets_defined(data, index, relocs, n - 1);
    }
}

/// Where an object can be made a file, every relocation of its `.data`
/// section points at a named symbol, and every symbol that an external
/// relocation points at is defined in the index.
pub proof fn lemma_external_targets_defined(contents: Seq<u8>, index: Map<Seq<char>, Sym>)
    requires
        relocated_object(contents, index) is Ok,
    ensures
        object_section(contents, DATA_SECTION@) matches Some(Some(section)) && forall|i: int|
            0 <= i < section.relocs.len() ==> {
                &&& (#[trigger] section.relocs[i]).target matches TargetView::Symbol(Some(name))
                &&& name != DATA_SECTION@ ==> index.dom().contains(name)
            },
{
    let section = object_section(contents, DATA_SECTION@)->Some_0->Some_0;
    lemma_sorted_targets_defined(section.data, index, section.relocs, section.relocs.len() as int);
}

/// The chains have one entry for each relocation, and one file index for
/// each external one.
pub proof fn lemma_sorted_lengths(
    data: Seq<u8>,
    index: Map<Seq<char>, Sym>,
    relocs: Seq<RelocView>,
    n: int,
)
    requires
        0 <= n,
        sorted(data, index, relocs, n) is Ok,
    ensures
        ({
            let c = sorted(data, index, relocs, n)->Ok_0;
            c.internal.len() + c.external.len() == n && c.externs.len() == c.external.len()
        }),
    decreases n,
{
    if n > 0 {
        lemma_sorted_lengths(data, index, relocs, n - 1);
    }
}

fn start_of(chain: &Vec<(usize, u32)>) -> (r: Result<Option<u32>, LinkError>)
    ensures
        crate::error::outcome(r) == first_site(chain@),
{
    if chain.len() == 0 {
        Ok(None)
    } else if chain[0].0 > u32::MAX as usize {
        Err(LinkError::Overflow(chain[0].0 as u64))
    } else {
        Ok(Some(chain[0].0 as u32))
    }
}

/// Sorts the relocations of a section that was read from an object and
/// rewrites both chains into its bytes.
pub fn relocate_section(section: ObjSection, sym_map: &SymMap) -> (r: Result<RelInfo, LinkError>)
    ensures
        rel_outcome(r) == relocated_section(section@, sym_map@),
{
    let ghost view = section@;
    let ghost index = sym_map@;
    let ObjSection { data, relocs } = section;
    let mut data = data;
    let mut externs: Vec<u16> = Vec::new();
    let mut internal_relocs: Vec<(usize, u32)> = Vec::with_capacity(16);
    let mut external_relocs: Vec<(usize, u32)> = Vec::with_capacity(16);
    let internal = DATA_SECTION.to_owned();
    let mut i: usize = 0;
    while i < relocs.len()
        invariant
            i <= relocs.len(),
            view == section@,
            view.data == data@,
            view.relocs == crate::objfile::reloc_views(relocs@),
            index == sym_map@,
            internal@ == DATA_SECTION@,
            sorted(view.data, index, view.relocs, i as int) == Ok::<Chains, Failure>(
                Chains {
                    internal: internal_relocs@,
                    external: external_relocs@,
                    externs: externs@,
                },
            ),
        decreases relocs.len() - i,
    {
        let reloc: &ObjReloc = &relocs[i];
        assert(view.relocs[i as int] == reloc@);
        proof {
            if classify(view.data, index, reloc@) is Err {
                lemma_sorted_stops(
                    view.data,
                    index,
                    view.relocs,
                    i + 1,
                    view.relocs.len() as int,
                );
            }
        }
        if reloc.size != 32 {
            return Err(LinkError::UnsupportedRelocWidth(reloc.size));
        }
        match &reloc.target {
            RelocTarget::Symbol(Some(name)) => {
                if *name == internal {
                    if reloc.offset > usize::MAX as u64 {
                        return Err(LinkError::OutOfBounds);
                    }
                    let loc = reloc.offset as usize;
                    if loc > data.len() || data.len() - loc < 4 {
                        return Err(LinkError::OutOfBounds);
                    }
                    let value: u32 = (data[loc] as u32) * 0x100_0000 + (data[loc + 1] as u32)
                        * 0x1_0000 + (data[loc + 2] as u32) * 0x100 + (data[loc + 3] as u32);
                    assert(data@.subrange(loc as int, loc + 4)[0] == data@[loc as int]);
                    assert(data@.subrange(loc as int, loc + 4)[1] == data@[loc + 1]);
                    assert(data@.subrange(loc as int, loc + 4)[2] == data@[loc + 2]);
                    assert(data@.subrange(loc as int, loc + 4)[3] == data@[loc + 3]);
                    internal_relocs.push((loc, value));
                } else {
                    let sym = match sym_map.get(name.as_str()) {
                        Some(sym) => sym,
                        None => {
                            return Err(LinkError::UnresolvedSymbol(name.clone()));
                        },
                    };
                    if reloc.offset > usize::MAX as u64 {
                        return Err(LinkError::OutOfBounds);
                    }
                    external_relocs.push((reloc.offset as usize, sym.addr));
                    externs.push(sym.file);
                }
            },
            RelocTarget::Symbol(None) => {
                return Err(LinkError::ObjectParse);
            },
            _ => {
                return Err(LinkError::UnsupportedRelocTarget);
            },
        }
        i += 1;
    }
    match relocate(&mut data, internal_relocs.as_slice()) {
        Ok(()) => {},
        Err(e) => {
            return Err(e);
        },
    }
    match relocate(&mut data, external_relocs.as_slice()) {
        Ok(()) => {},
        Err(e) => {
            return Err(e);
        },
    }
    let inreloc = match start_of(&internal_relocs) {
        Ok(site) => site,
        Err(e) => {
            return Err(e);
        },
    };
    let exreloc = match start_of(&external_relocs) {
        Ok(site) => site,
        Err(e) => {
            return Err(e);
        },
    };
    let externs = if externs.len() == 0 {
        None
    } else {
        Some(externs)
    };
    Ok(RelInfo { data, externs, inreloc, exreloc })
}

/// Reads the `.data` section of an object and makes it a file of the
/// payload: the section's bytes with both chains of relocations rewritten,
/// the inputs that the external relocations refer to, and where each chain
/// starts.
pub fn relocate_obj(contents: &[u8], sym_map: &SymMap) -> (r: Result<RelInfo, LinkError>)
    ensures
        rel_outcome(r) == relocated_object(contents@, sym_map@),
{
    match read_section(contents, DATA_SECTION) {
        Err(_) => Err(LinkError::ObjectParse),
        Ok(None) => Err(LinkError::MissingDataSection),
        Ok(Some(section)) => relocate_section(section, sym_map),
    }
}

} // verus!
