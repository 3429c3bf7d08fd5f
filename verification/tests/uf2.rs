use picodox::uf2::{
    flash_regions, Uf2Block, Uf2Error, Uf2Flags, FLAG_ALL, FLAG_FAMILY_ID_PRES,
    FLAG_NOT_MAIN_FLASH, UF2_MAGIC_END, UF2_MAGIC_START0, UF2_MAGIC_START1, UF2_PAYLOAD_LEN,
};

fn container(blocks: &[Uf2Block]) -> Vec<u8> {
    let mut bytes = Vec::new();
    for block in blocks {
        bytes.extend_from_slice(&block.to_bytes());
    }
    bytes
}

fn flash_block(addr: u32, size: usize, num: u32, total: u32) -> Uf2Block {
    Uf2Block::new(Uf2Flags::empty(), addr, &vec![0xA5u8; size], num, total, 0)
}

#[test]
fn container_coalescing() {
    let sizes = [476usize, 476, 476, 100];
    let mut blocks = Vec::new();
    let mut addr = 0x1000_0000u32;
    for (num, size) in sizes.iter().enumerate() {
        blocks.push(flash_block(addr, *size, num as u32, 4));
        addr += *size as u32;
    }
    let bytes = container(&blocks);
    assert_eq!(bytes.len(), 4 * 512);
    let parsed = Uf2Block::parse(&bytes).unwrap();
    assert_eq!(parsed.len(), 4);
    assert_eq!(flash_regions(&parsed), vec![(0x1000_0000, 1528)]);
}

#[test]
fn regions_break_where_addresses_do() {
    let blocks = vec![
        flash_block(0x1000_0000, 256, 0, 5),
        flash_block(0x1000_0100, 256, 1, 5),
        flash_block(0x1000_0300, 256, 2, 5),
        flash_block(0x1000_0400, 16, 3, 5),
        flash_block(0x1000_0000, 8, 4, 5),
    ];
    assert_eq!(
        flash_regions(&blocks),
        vec![(0x1000_0000, 512), (0x1000_0300, 272), (0x1000_0000, 8)]
    );
    assert_eq!(flash_regions(&[]), vec![]);
}

#[test]
fn blocks_outside_main_flash_are_passed_over() {
    let skipped = Uf2Block::new(Uf2Flags::not_main_flash(), 0x2000_0000, &[1, 2, 3], 0, 3, 0);
    let blocks = vec![
        skipped,
        flash_block(0x1000_0000, 256, 1, 3),
        Uf2Block::new(Uf2Flags::not_main_flash(), 0x1000_0100, &[9; 16], 2, 3, 0),
        flash_block(0x1000_0100, 256, 2, 3),
    ];
    assert_eq!(flash_regions(&blocks), vec![(0x1000_0000, 512)]);
    let only = vec![Uf2Block::new(Uf2Flags::not_main_flash(), 0, &[], 0, 1, 0)];
    assert_eq!(flash_regions(&only), vec![]);
}

#[test]
fn block_fields_at_their_offsets() {
    let flags = Uf2Flags::from_bits(FLAG_FAMILY_ID_PRES).unwrap();
    let block = Uf2Block::new(flags, 0x1000_0100, &[1, 2, 3, 4], 7, 9, 0xe48b_ff56);
    let bytes = block.to_bytes();
    assert_eq!(bytes.len(), 512);
    assert_eq!(&bytes[0..4], &[0x55, 0x46, 0x32, 0x0A]);
    assert_eq!(&bytes[4..8], &[0x57, 0x51, 0x5D, 0x9E]);
    assert_eq!(&bytes[8..12], &[0x00, 0x20, 0x00, 0x00]);
    assert_eq!(&bytes[12..16], &[0x00, 0x01, 0x00, 0x10]);
    assert_eq!(&bytes[16..20], &[4, 0, 0, 0]);
    assert_eq!(&bytes[20..24], &[7, 0, 0, 0]);
    assert_eq!(&bytes[24..28], &[9, 0, 0, 0]);
    assert_eq!(&bytes[28..32], &[0x56, 0xff, 0x8b, 0xe4]);
    assert_eq!(&bytes[32..36], &[1, 2, 3, 4]);
    assert!(bytes[36..508].iter().all(|b| *b == 0));
    assert_eq!(&bytes[508..512], &[0x30, 0x6F, 0xB1, 0x0A]);
    assert_eq!(u32::from_le_bytes(UF2_MAGIC_START0), 0x0A32_4655);
    assert_eq!(u32::from_le_bytes(UF2_MAGIC_START1), 0x9E5D_5157);
    assert_eq!(u32::from_le_bytes(UF2_MAGIC_END), 0x0AB1_6F30);

    let parsed = Uf2Block::parse(&bytes).unwrap();
    assert_eq!(parsed.len(), 1);
    let back = &parsed[0];
    assert_eq!(back.get_flags(), flags);
    assert_eq!(back.get_payload(), &[1, 2, 3, 4]);
    assert_eq!(back.get_block_num(), 7);
    assert_eq!(back.get_num_blocks(), 9);
    assert_eq!(back.get_extra_data(), 0xe48b_ff56);
    assert_eq!(back.get_bounds(), (0x1000_0100, 0x1000_0104));
    assert_eq!(back.to_bytes(), bytes);
}

#[test]
fn unused_payload_bytes_are_kept() {
    let mut bytes = flash_block(0x1000_0000, 2, 0, 1).to_bytes();
    bytes[32 + 400] = 0x77;
    let parsed = Uf2Block::parse(&bytes).unwrap();
    assert_eq!(parsed[0].get_payload(), &[0xA5, 0xA5]);
    assert_eq!(parsed[0].to_bytes(), bytes);
}

#[test]
fn container_faults() {
    let good = flash_block(0x1000_0000, 476, 0, 1).to_bytes();
    assert!(Uf2Block::parse(&good).is_ok());
    assert_eq!(Uf2Block::parse(&[]).unwrap().len(), 0);

    assert_eq!(Uf2Block::parse(&good[..511]).err(), Some(Uf2Error::BadLength { len: 511 }));
    let mut long = good.clone();
    long.push(0);
    assert_eq!(Uf2Block::parse(&long).err(), Some(Uf2Error::BadLength { len: 513 }));

    let mut bad = good.clone();
    bad[0] = 0x56;
    assert_eq!(
        Uf2Block::parse(&bad).err(),
        Some(Uf2Error::BadMagic0 { found: [0x56, 0x46, 0x32, 0x0A] })
    );
    let mut bad = good.clone();
    bad[7] = 0;
    assert_eq!(
        Uf2Block::parse(&bad).err(),
        Some(Uf2Error::BadMagic1 { found: [0x57, 0x51, 0x5D, 0x00] })
    );
    let mut bad = good.clone();
    bad[510] = 0xB2;
    assert_eq!(
        Uf2Block::parse(&bad).err(),
        Some(Uf2Error::BadMagic2 { found: [0x30, 0x6F, 0xB2, 0x0A] })
    );
    let mut bad = good.clone();
    bad[8] = 0x02;
    assert_eq!(Uf2Block::parse(&bad).err(), Some(Uf2Error::BadFlags { bits: 2 }));
    let mut bad = good.clone();
    bad[16..20].copy_from_slice(&477u32.to_le_bytes());
    assert_eq!(Uf2Block::parse(&bad).err(), Some(Uf2Error::BadPayloadSize { size: 477 }));

    // The first fault counts: of a block the magic numbers before the
    // flags, of a container the earlier block.
    let mut bad = good.clone();
    bad[8] = 0x02;
    bad[510] = 0xB2;
    assert_eq!(
        Uf2Block::parse(&bad).err(),
        Some(Uf2Error::BadMagic2 { found: [0x30, 0x6F, 0xB2, 0x0A] })
    );
    let mut two = good.clone();
    two.extend_from_slice(&good);
    two[8] = 0x02;
    two[512] = 0;
    assert_eq!(Uf2Block::parse(&two).err(), Some(Uf2Error::BadFlags { bits: 2 }));
}

#[test]
fn flags() {
    assert_eq!(FLAG_ALL, 0xF001);
    assert_eq!(Uf2Flags::from_bits(0), Some(Uf2Flags::empty()));
    assert_eq!(Uf2Flags::from_bits(0xF001).unwrap().bits(), 0xF001);
    assert_eq!(Uf2Flags::from_bits(0x0002), None);
    assert_eq!(Uf2Flags::from_bits(0x1_0000), None);
    let flags = Uf2Flags::from_bits(0x2001).unwrap();
    assert!(flags.contains(Uf2Flags::not_main_flash()));
    assert!(flags.contains(Uf2Flags::empty()));
    assert!(!Uf2Flags::from_bits(0x2000).unwrap().contains(Uf2Flags::not_main_flash()));
    assert_eq!(Uf2Flags::not_main_flash().bits(), FLAG_NOT_MAIN_FLASH);
}

#[test]
fn bounds_at_the_end_of_the_address_range() {
    let last = flash_block(u32::MAX - 476, 476, 0, 1);
    assert!(last.bounds_fit());
    assert_eq!(last.get_bounds(), (u32::MAX - 476, u32::MAX));
    let over = flash_block(u32::MAX - 475, 476, 0, 1);
    assert!(!over.bounds_fit());
    let full = Uf2Block::new(Uf2Flags::empty(), 0, &[0u8; UF2_PAYLOAD_LEN], 0, 1, 0);
    assert_eq!(full.get_payload().len(), 476);
}
