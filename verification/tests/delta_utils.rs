use messi::packfile::delta_utils::{
    decode_offset, decode_size, delta_commands_from_objects, encode_offset, encode_size, read_delta_commands,
    read_offset_encoding, read_size_encoding, recreate_from_commands, Command, DeltaError,
};

#[test]
fn test_encode_decode_size() {
    assert_eq!(encode_size(0), vec![0]);
    assert_eq!(decode_size(&[0]), 0);

    assert_eq!(encode_size(1), vec![1]);
    assert_eq!(decode_size(&[1]), 1);

    assert_eq!(encode_size(127), vec![127]);
    assert_eq!(decode_size(&[127]), 127);

    assert_eq!(encode_size(128), vec![128, 1]);
    assert_eq!(decode_size(&[128, 1]), 128);

    assert_eq!(encode_size(129), vec![129, 1]);
    assert_eq!(decode_size(&[129, 1]), 129);

    assert_eq!(encode_size(206), vec![206, 1]);
    assert_eq!(decode_size(&[206, 1]), 206);

    assert_eq!(encode_size(255), vec![255, 1]);
    assert_eq!(decode_size(&[255, 1]), 255);

    assert_eq!(encode_size(256), vec![128, 2]);
    assert_eq!(decode_size(&[128, 2]), 256);

    assert_eq!(encode_size(257), vec![129, 2]);
    assert_eq!(decode_size(&[129, 2]), 257);

    assert_eq!(encode_size(16383), vec![255, 127]);
    assert_eq!(decode_size(&[255, 127]), 16383);

    assert_eq!(encode_size(16384), vec![128, 128, 1]);
    assert_eq!(decode_size(&[128, 128, 1]), 16384);

    assert_eq!(encode_size(16385), vec![129, 128, 1]);
    assert_eq!(decode_size(&[129, 128, 1]), 16385);

    assert_eq!(encode_size(2097151), vec![255, 255, 127]);
    assert_eq!(decode_size(&[255, 255, 127]), 2097151);

    assert_eq!(encode_size(2097152), vec![128, 128, 128, 1]);
    assert_eq!(decode_size(&[128, 128, 128, 1]), 2097152);

    assert_eq!(encode_size(2097153), vec![129, 128, 128, 1]);
    assert_eq!(decode_size(&[129, 128, 128, 1]), 2097153);

    assert_eq!(encode_size(268435455), vec![255, 255, 255, 127]);
    assert_eq!(decode_size(&[255, 255, 255, 127]), 268435455);
}

#[test]
fn test_encode_decode_offset() {
    assert_eq!(encode_offset(53), vec![53]);
    assert_eq!(decode_offset(&[53]), 53);

    assert_eq!(encode_offset(79), vec![79]);
    assert_eq!(decode_offset(&[79]), 79);

    assert_eq!(encode_offset(111), vec![111]);
    assert_eq!(decode_offset(&[111]), 111);

    assert_eq!(encode_offset(479), vec![130, 95]);
    assert_eq!(decode_offset(&[130, 95]), 479);

    assert_eq!(encode_offset(499), vec![130, 115]);
    assert_eq!(decode_offset(&[130, 115]), 499);

    assert_eq!(encode_offset(446), vec![130, 62]);
    assert_eq!(decode_offset(&[130, 62]), 446);

    assert_eq!(encode_offset(566), vec![131, 54]);
    assert_eq!(decode_offset(&[131, 54]), 566);

    assert_eq!(encode_offset(584), vec![131, 72]);
    assert_eq!(decode_offset(&[131, 72]), 584);

    assert_eq!(encode_offset(138), vec![128, 10]);
    assert_eq!(decode_offset(&[128, 10]), 138);

    assert_eq!(encode_offset(717), vec![132, 77]);
    assert_eq!(decode_offset(&[132, 77]), 717);

    assert_eq!(encode_offset(812), vec![133, 44]);
    assert_eq!(decode_offset(&[133, 44]), 812);

    assert_eq!(encode_offset(1187), vec![136, 35]);
    assert_eq!(decode_offset(&[136, 35]), 1187);
}

#[test]
fn test_recreate_from_commands() {
    let base = "let mode = String::from_utf8(mode.to_vec())
        .map_err(|e| std::io::Error::new(std::io::ErrorKind::InvalidData, e.to_string()))?; // lo paso a string
    let hash: Vec<String> = hash.iter().map(|byte| format!(\"{:02x}\", byte)).collect(); // convierto los bytes del hash a string
    let hash = hash.concat().to_string();
    let name = String::from_utf8(name.to_vec())
        .map_err(|e| std::io::Error::new(std::io::ErrorKind::InvalidData, e.to_string()))?;
    results.push((mode, name, hash)); // agrego el resultado y vuelvo a empezar".as_bytes();
    let object = "let mode = String::from_utf8(mode.to_vec())
        .map_err(|e| std::io::Error::new(std::io::ErrorKind::InvalidData, e.to_string()))?; // lo paso a string
    let hash: Vec<String> = hash.iter().map(|byte| format!(\"{:02x}\", byte)).collect(); // convierto los bytes del hash a string
    let hash = hash.concat().to_string();
    // un comentario en el medio
    let name = String::from_utf8(name.to_vec())
    // una linea de comentarios mas
        .map_err(|e| std::io::Error::new(std::io::ErrorKind::InvalidData, e.to_string()))?;
    results.push((mode, name, hash)); // agrego el resultado y vuelvo a empezar
    // termino con un comentario
    ".as_bytes();
    let commands = delta_commands_from_objects(base, object);
    let recreated = recreate_from_commands(base, &commands);
    assert_eq!(recreated.len(), object.len());
    assert_eq!(recreated, object);
}

#[test]
fn test_copy_encoding() {
    let command = Command::Copy { offset: 0x00, size: 0x56 };
    let encoded = command.encode();
    assert_eq!(encoded, vec![0b10010000, 0x56]);

    let command = Command::Copy { offset: 0x12, size: 0x56 };
    let encoded = command.encode();
    assert_eq!(encoded, vec![0b10010001, 0x12, 0x56]);

    let command = Command::Copy { offset: 0x1234, size: 0x5678 };
    let encoded = command.encode();
    assert_eq!(encoded, vec![0b10110011, 0x34, 0x12, 0x78, 0x56]);

    let command = Command::Copy { offset: 0x1234A5, size: 0x5678B4 };
    let encoded = command.encode();
    assert_eq!(encoded, vec![0b11110111, 0xA5, 0x34, 0x12, 0xB4, 0x78, 0x56]);

    let command = Command::Copy { offset: 0xA0B1C2D3, size: 0x5678D8 };
    let encoded = command.encode();
    assert_eq!(encoded, vec![0b11111111, 0xD3, 0xC2, 0xB1, 0xA0, 0xD8, 0x78, 0x56]);
}

#[test]
fn insert_command_is_encoded_with_its_length() {
    let command = Command::Insert(vec![1, 2, 3]);
    assert_eq!(command.encode(), vec![3, 1, 2, 3]);
}

#[test]
fn delta_recreates_object_with_shared_lines() {
    let base = b"one\ntwo\nthree\n";
    let object = b"one\nthree\nfour\n";
    let commands = delta_commands_from_objects(base, object);
    assert_eq!(recreate_from_commands(base, &commands), object.to_vec());
}

#[test]
fn delta_commands_read_back_from_their_encoding() {
    let base = b"alpha\nbeta\ngamma\n";
    let object = b"alpha\ndelta\ngamma\n";
    let commands = delta_commands_from_objects(base, object);
    let mut encoded = Vec::new();
    for c in &commands {
        encoded.extend(c.encode());
    }
    let read = read_delta_commands(&encoded).unwrap();
    assert_eq!(recreate_from_commands(base, &read), object.to_vec());
}

#[test]
fn size_and_offset_encodings_read_back() {
    let data = encode_size(300);
    assert_eq!(read_size_encoding(&data, 0), Ok((300, 2)));
    let data = encode_offset(1187);
    assert_eq!(read_offset_encoding(&data, 0), Ok((1187, 2)));
}

#[test]
fn reading_past_the_end_is_an_error() {
    assert_eq!(read_size_encoding(&[128], 0), Err(DeltaError::UnexpectedEof));
    assert_eq!(read_offset_encoding(&[], 0), Err(DeltaError::UnexpectedEof));
}

#[test]
fn a_zero_command_byte_is_invalid() {
    assert_eq!(read_delta_commands(&[0]).unwrap_err(), DeltaError::InvalidCommand);
}

#[test]
fn long_insert_reads_back_in_chunks() {
    let bytes: Vec<u8> = (0..200u32).map(|i| (i % 251) as u8 + 1).collect();
    let base = b"base";
    let commands = vec![Command::Copy { offset: 1, size: 3 }, Command::Insert(bytes.clone())];
    let mut encoded = Vec::new();
    for c in &commands {
        encoded.extend(c.encode());
    }
    let read = read_delta_commands(&encoded).unwrap();
    assert_eq!(read.len(), 3);
    assert!(matches!(&read[1], Command::Insert(b) if b.len() == 127));
    assert!(matches!(&read[2], Command::Insert(b) if b.len() == 73));
    assert_eq!(recreate_from_commands(base, &read), recreate_from_commands(base, &commands));
}

#[test]
fn delta_commands_leave_nothing_to_merge() {
    let base = b"one\ntwo\nthree\nfour\n";
    let object = b"one\ntwo\nnew\nother\nthree\nfour\n";
    let commands = delta_commands_from_objects(base, object);
    assert_eq!(commands.len(), 3);
    assert!(matches!(commands[0], Command::Copy { offset: 0, size: 8 }));
    assert!(matches!(&commands[1], Command::Insert(b) if b == b"new\nother\n"));
    assert!(matches!(commands[2], Command::Copy { offset: 8, size: 11 }));
    assert_eq!(recreate_from_commands(base, &commands), object.to_vec());
}
