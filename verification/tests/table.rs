use halld::error::LinkError;
use halld::table::{add_file_info, terminate_table, FileInfo};

fn info(offset: u32, size: u32, rom_size: u32) -> FileInfo {
    FileInfo { offset, size, rom_size, compressed: false, inreloc: None, exreloc: None }
}

#[test]
fn entry_layout_is_offset_inreloc_rom_exreloc_size() {
    let mut table = Vec::new();
    let file = FileInfo {
        offset: 0x0102_0304,
        size: 0x40,
        rom_size: 0x20,
        compressed: false,
        inreloc: Some(8),
        exreloc: Some(0x10),
    };
    assert_eq!(add_file_info(&mut table, file), Ok(()));
    assert_eq!(table, vec![0x01, 0x02, 0x03, 0x04, 0x00, 0x02, 0x00, 0x08, 0x00, 0x04, 0x00, 0x10]);
}

#[test]
fn compressed_entry_has_the_top_bit_set() {
    let mut table = vec![0xEE];
    let file = FileInfo { compressed: true, ..info(0x10, 8, 4) };
    assert_eq!(add_file_info(&mut table, file), Ok(()));
    assert_eq!(
        table,
        vec![0xEE, 0x80, 0x00, 0x00, 0x10, 0xFF, 0xFF, 0x00, 0x01, 0xFF, 0xFF, 0x00, 0x02]
    );
}

#[test]
fn largest_size_that_fits_the_field() {
    let mut table = Vec::new();
    assert_eq!(add_file_info(&mut table, info(0, 262140, 262140)), Ok(()));
    assert_eq!(&table[6..8], &[0xFF, 0xFF]);
    assert_eq!(&table[10..12], &[0xFF, 0xFF]);
}

#[test]
fn size_past_the_field_overflows() {
    let mut table = vec![1, 2, 3];
    assert_eq!(add_file_info(&mut table, info(0, 262144, 4)), Err(LinkError::Overflow(262144)));
    assert_eq!(table, vec![1, 2, 3]);
    assert_eq!(add_file_info(&mut table, info(0, 4, 262144)), Err(LinkError::Overflow(262144)));
    assert_eq!(table, vec![1, 2, 3]);
}

#[test]
fn fields_are_checked_in_order() {
    let mut table = Vec::new();
    let file = FileInfo {
        offset: 0,
        size: 5,
        rom_size: 6,
        compressed: false,
        inreloc: Some(7),
        exreloc: Some(9),
    };
    assert_eq!(add_file_info(&mut table, file), Err(LinkError::Misaligned(5)));
    assert_eq!(add_file_info(&mut table, FileInfo { size: 4, ..file }), Err(LinkError::Misaligned(6)));
    assert_eq!(
        add_file_info(&mut table, FileInfo { size: 4, rom_size: 4, ..file }),
        Err(LinkError::Misaligned(7))
    );
    assert_eq!(
        add_file_info(&mut table, FileInfo { size: 4, rom_size: 4, inreloc: None, ..file }),
        Err(LinkError::Misaligned(9))
    );
    assert!(table.is_empty());
}

#[test]
fn terminator_is_length_and_eight_zeros() {
    let mut table = vec![7];
    assert_eq!(terminate_table(&mut table, 0x0001_0204), Ok(()));
    assert_eq!(table, vec![7, 0x00, 0x01, 0x02, 0x04, 0, 0, 0, 0, 0, 0, 0, 0]);
}

#[test]
fn terminator_of_an_empty_payload() {
    let mut table = Vec::new();
    assert_eq!(terminate_table(&mut table, 0), Ok(()));
    assert_eq!(table, vec![0u8; 12]);
}

#[test]
fn terminator_rejects_lengths_past_32_bits() {
    if usize::BITS > 32 {
        let mut table = vec![1];
        let end = (u32::MAX as usize) + 1;
        assert_eq!(terminate_table(&mut table, end), Err(LinkError::Overflow(end as u64)));
        assert_eq!(table, vec![1]);
    }
    let mut table = Vec::new();
    assert_eq!(terminate_table(&mut table, u32::MAX as usize), Ok(()));
    assert_eq!(&table[0..4], &[0xFF, 0xFF, 0xFF, 0xFF]);
}

#[test]
fn every_field_is_absent_or_a_count_of_words() {
    let mut table = Vec::new();
    let file = FileInfo {
        offset: 0x40,
        size: 0x100,
        rom_size: 0x80,
        compressed: true,
        inreloc: None,
        exreloc: Some(0xFC),
    };
    assert_eq!(add_file_info(&mut table, file), Ok(()));
    let field = |at: usize| u16::from_be_bytes([table[at], table[at + 1]]);
    assert_eq!(field(4), 0xFFFF);
    assert_eq!(field(6) as u32 * 4, 0x80);
    assert_eq!(field(8) as u32 * 4, 0xFC);
    assert_eq!(field(10) as u32 * 4, 0x100);
    let word = u32::from_be_bytes([table[0], table[1], table[2], table[3]]);
    assert_eq!(word & 0x7FFF_FFFF, 0x40);
    assert_eq!(word & 0x8000_0000, 0x8000_0000);
}
