use flexspi_nor::words::{first_word, read_u32_write_u8, read_u8_write_u32};

#[test]
fn test_read_u8_write_u32_volatile() {
    {
        let source = [1];
        let mut dest = [0xCAFECAFEu32];
        read_u8_write_u32(&source, &mut dest);
        assert!(dest[0].to_le_bytes() == [0x01, 0x00, 0x00, 0x00]);
    }

    {
        let source = [1, 2];
        let mut dest = [0xCAFECAFEu32];
        read_u8_write_u32(&source, &mut dest);
        assert!(dest[0].to_le_bytes() == [0x01, 0x02, 0x00, 0x00]);
    }
    {
        let source = [1, 2, 3];
        let mut dest = [0xCAFECAFEu32];
        read_u8_write_u32(&source, &mut dest);
        assert!(dest[0].to_le_bytes() == [0x01, 0x02, 0x03, 0x00]);
    }
    {
        let source = [1, 2, 3, 4];
        let mut dest = [0xCAFECAFEu32];
        read_u8_write_u32(&source, &mut dest);
        assert!(dest[0].to_le_bytes() == [0x01, 0x02, 0x03, 0x04]);
    }
    {
        let source = [1, 2, 3, 4, 5];
        let mut dest = [0xCAFECAFEu32; 2];
        read_u8_write_u32(&source, &mut dest);
        assert!(dest[0].to_le_bytes() == [0x01, 0x02, 0x03, 0x04]);
        assert!(dest[1].to_le_bytes() == [0x05, 0x00, 0x00, 0x00]);
    }
    {
        let source = [1, 2, 3, 4, 5, 6, 7];
        let mut dest = [0xCAFECAFEu32; 2];
        read_u8_write_u32(&source, &mut dest);
        assert!(dest[0].to_le_bytes() == [0x01, 0x02, 0x03, 0x04]);
        assert!(dest[1].to_le_bytes() == [0x05, 0x06, 0x07, 0x00]);
    }
    {
        let source = [1, 2, 3, 4, 5, 6, 7, 8];
        let mut dest = [0xCAFECAFEu32; 2];
        read_u8_write_u32(&source, &mut dest);
        assert!(dest[0].to_le_bytes() == [0x01, 0x02, 0x03, 0x04]);
        assert!(dest[1].to_le_bytes() == [0x05, 0x06, 0x07, 0x08]);
    }
}

#[test]
fn test_read_u32_volatile_write_u8() {
    let source = [
        u32::from_ne_bytes([0x01, 0x23, 0x45, 0x67]),
        u32::from_ne_bytes([0x89, 0xAB, 0xCD, 0xEF]),
    ];

    {
        let mut dest = [0xFF];
        read_u32_write_u8(&source, &mut dest);
        assert!(dest == [0x01]);
    }
    {
        let mut dest = [0xFF; 2];
        read_u32_write_u8(&source, &mut dest);
        assert!(dest == [0x01, 0x23]);
    }
    {
        let mut dest = [0xFF; 3];
        read_u32_write_u8(&source, &mut dest);
        assert!(dest == [0x01, 0x23, 0x45]);
    }
    {
        let mut dest = [0xFF; 4];
        read_u32_write_u8(&source, &mut dest);
        assert!(dest == [0x01, 0x23, 0x45, 0x67]);
    }
    {
        let mut dest = [0xFF; 5];
        read_u32_write_u8(&source, &mut dest);
        assert!(dest == [0x01, 0x23, 0x45, 0x67, 0x89]);
    }
    {
        let mut dest = [0xFF; 6];
        read_u32_write_u8(&source, &mut dest);
        assert!(dest == [0x01, 0x23, 0x45, 0x67, 0x89, 0xAB]);
    }
    {
        let mut dest = [0xFF; 7];
        read_u32_write_u8(&source, &mut dest);
        assert!(dest == [0x01, 0x23, 0x45, 0x67, 0x89, 0xAB, 0xCD]);
    }
    {
        let mut dest = [0xFF; 8];
        read_u32_write_u8(&source, &mut dest);
        assert!(dest == [0x01, 0x23, 0x45, 0x67, 0x89, 0xAB, 0xCD, 0xEF]);
    }
}

#[test]
fn the_first_byte_is_the_least_significant() {
    assert_eq!(first_word(&[0x01, 0x23, 0x45, 0x67]), 0x6745_2301);
    let mut dest = [0u32];
    read_u8_write_u32(&[0xEF, 0xBE, 0xAD, 0xDE], &mut dest);
    assert_eq!(dest, [0xDEAD_BEEF]);
}

#[test]
fn words_that_are_not_needed_stay() {
    let mut dest = [0xCAFE_CAFEu32; 3];
    read_u8_write_u32(&[1, 2, 3, 4, 5], &mut dest);
    assert_eq!(dest, [0x0403_0201, 0x0000_0005, 0xCAFE_CAFE]);
    read_u8_write_u32(&[], &mut dest);
    assert_eq!(dest, [0x0403_0201, 0x0000_0005, 0xCAFE_CAFE]);
}

#[test]
fn bytes_survive_packing_and_unpacking() {
    for len in 0..40usize {
        let bytes: Vec<u8> = (0..len).map(|i| (7 * i + 200) as u8).collect();
        let mut words = vec![0u32; (len + 3) / 4];
        read_u8_write_u32(&bytes, &mut words);
        let mut back = vec![0u8; len];
        read_u32_write_u8(&words, &mut back);
        assert_eq!(back, bytes);
    }
}

#[test]
fn words_survive_unpacking_and_packing() {
    let words = [0x0102_0304u32, 0xFFEE_DDCC, 0, 0x8000_0001];
    let mut bytes = [0u8; 16];
    read_u32_write_u8(&words, &mut bytes);
    let mut back = [0u32; 4];
    read_u8_write_u32(&bytes, &mut back);
    assert_eq!(back, words);
}
