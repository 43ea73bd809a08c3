//! The linker script: which files to link, in what order and how, and the
//! settings that go with it.

use crate::error::{Failure, LinkError};
use crate::paths::text_views;
use vstd::prelude::*;

verus! {

/// How a file is to be compressed.
#[derive(Debug, Clone, PartialEq, Eq)]
pub struct VpkSettings {
    /// 0 for one-sample, 1 for two-sample offsets; one-sample if absent.
    pub method: Option<u8>,
    /// A Huffman tree for the offsets, as text.
    pub offsets: Option<String>,
    /// A Huffman tree for the lengths, as text.
    pub lengths: Option<String>,
}

/// One entry of the script.
#[derive(Debug, Clone, PartialEq, Eq)]
pub struct InputFile {
    /// The path of the file. Linking replaces it by the place where the
    /// file was found.
    pub file: String,
    /// Whether the file is stored compressed.
    pub compressed: bool,
    pub comp_settings: Option<VpkSettings>,
    /// For a raw file: where its chain of internal relocations starts.
    pub inreloc: Option<u32>,
    /// For a raw file: where its chain of external relocations starts.
    pub exreloc: Option<u32>,
    /// For a raw file: the inputs that its external relocations refer to.
    pub imports: Option<Vec<u16>>,
    /// For a raw file: the symbols it defines, in the order they are declared.
    pub exports: Option<Vec<(String, u32)>>,
}

/// The entries of a script in link order.
pub type LinkerScript = Vec<InputFile>;

/// Settings that a script may carry.
#[derive(Debug, Clone, PartialEq, Eq)]
pub struct Settings {
    pub output: Option<String>,
    pub search_dirs: Option<Vec<String>>,
}

/// A script with its settings.
#[derive(Debug, Clone, PartialEq, Eq)]
pub struct LinkerConfig {
    pub settings: Option<Settings>,
    pub script: LinkerScript,
}

/// What is to be linked, where to, and where inputs are looked for.
#[derive(Debug, Clone, PartialEq, Eq)]
pub struct Plan {
    pub output: String,
    pub search_dirs: Option<Vec<String>>,
    pub script: LinkerScript,
}

/// A text that may be missing, as a sequence of characters.
pub open spec fn opt_text(s: Option<String>) -> Option<Seq<char>> {
    match s {
        Some(s) => Some(s@),
        None => None,
    }
}

/// A list of texts that may be missing, each text as a sequence of characters.
pub open spec fn opt_texts(s: Option<Vec<String>>) -> Option<Seq<Seq<char>>> {
    match s {
        Some(s) => Some(text_views(s@)),
        None => None,
    }
}

/// The output that the settings of a script name, if any.
pub open spec fn settings_output(settings: Option<Settings>) -> Option<Seq<char>> {
    match settings {
        Some(s) => opt_text(s.output),
        None => None,
    }
}

/// The search directories that the settings of a script name, if any.
pub open spec fn settings_search(settings: Option<Settings>) -> Option<Seq<Seq<char>>> {
    match settings {
        Some(s) => opt_texts(s.search_dirs),
        None => None,
    }
}

/// The output to write: the one of the command line, else the one of the
/// script.
pub open spec fn chosen_output(given: Option<Seq<char>>, settings: Option<Seq<char>>) -> Result<
    Seq<char>,
    Failure,
> {
    match given {
        Some(path) => Ok(path),
        None => match settings {
            Some(path) => Ok(path),
            None => Err(Failure::NoOutput),
        },
    }
}

/// The directories to search: those of the command line, then those of
/// the script.
pub open spec fn chosen_search(given: Option<Seq<Seq<char>>>, settings: Option<Seq<Seq<char>>>) -> Option<
    Seq<Seq<char>>,
> {
    match (given, settings) {
        (Some(a), Some(b)) => Some(a + b),
        (Some(a), None) => Some(a),
        (None, Some(b)) => Some(b),
        (None, None) => None,
    }
}

/// Settles where the output goes and where inputs are looked for. What the
/// command line gives comes first: its output path replaces the one of the
/// script, and its search directories are searched before those of the
/// script. The script is handed on as it is.
pub fn plan(config: LinkerConfig, output: Option<String>, search: Option<Vec<String>>) -> (r: Result<
    Plan,
    LinkError,
>)
    ensures
        match chosen_output(opt_text(output), settings_output(config.settings)) {
            Ok(path) => r matches Ok(plan) && plan.output@ == path && plan.script == config.script
                && opt_texts(plan.search_dirs) == chosen_search(
                opt_texts(search),
                settings_search(config.settings),
            ),
            Err(e) => r matches Err(err) && err@ == e,
        },
{
    let LinkerConfig { settings, script } = config;
    let (config_output, config_search) = match settings {
        Some(s) => (s.output, s.search_dirs),
        None => (None, None),
    };
    let output = match output {
        Some(path) => path,
        None => match config_output {
            Some(path) => path,
            None => {
                return Err(LinkError::NoOutput);
            },
        },
    };
    let search_dirs = match (search, config_search) {
        (Some(a), Some(b)) => {
            let mut a = a;
            let mut b = b;
            let ghost first = a@;
            let ghost second = b@;
            a.append(&mut b);
            assert(text_views(a@) =~= text_views(first) + text_views(second));
            Some(a)
        },
        (Some(a), None) => Some(a),
        (None, Some(b)) => Some(b),
        (None, None) => None,
    };
    Ok(Plan { output, search_dirs, script })
}

} // verus!
