use can_receiver::error_map::{parse_error_map, ErrorMapError};

#[test]
fn error_map_skips_header_and_trims() {
    let map = parse_error_map("Error Code,Name\n33040,CAN overrun\n 33041 , CAN error passive \r\n33296,Motor overtemperature\n").unwrap();
    assert_eq!(map.len(), 3);
    assert_eq!(map.get(&33040).unwrap(), "CAN overrun");
    assert_eq!(map.get(&33041).unwrap(), "CAN error passive");
    assert_eq!(map.get(&33296).unwrap(), "Motor overtemperature");
}

#[test]
fn error_map_first_comma_separates() {
    let map = parse_error_map("code,name\n7,Fault, with comma\n").unwrap();
    assert_eq!(map.get(&7).unwrap(), "Fault, with comma");
}

#[test]
fn error_map_repeated_code_overwrites() {
    let map = parse_error_map("h\n1,first\n1,second\n").unwrap();
    assert_eq!(map.len(), 1);
    assert_eq!(map.get(&1).unwrap(), "second");
}

#[test]
fn error_map_skips_lines_without_comma() {
    let map = parse_error_map("h\n\nno comma here\n2,two").unwrap();
    assert_eq!(map.len(), 1);
    assert_eq!(map.get(&2).unwrap(), "two");
}

#[test]
fn error_map_hex_code_refuses_table() {
    assert_eq!(
        parse_error_map("h\n1,one\n0x8110,CAN overrun\n").unwrap_err(),
        ErrorMapError::InvalidCode { line: 3 }
    );
}

#[test]
fn error_map_code_parsing_follows_u32_rules() {
    assert_eq!(parse_error_map("h\n+5,plus\n").unwrap().get(&5).unwrap(), "plus");
    assert!(parse_error_map("h\n-5,minus\n").is_err());
    assert!(parse_error_map("h\n4294967296,too big\n").is_err());
    assert_eq!(parse_error_map("h\n4294967295,max\n").unwrap().get(&u32::MAX).unwrap(), "max");
    assert!(parse_error_map("h\n,empty code\n").is_err());
}

#[test]
fn error_map_of_empty_or_header_only_text_is_empty() {
    assert!(parse_error_map("").unwrap().is_empty());
    assert!(parse_error_map("Error Code,Name\n").unwrap().is_empty());
    // the header is skipped whatever it holds
    assert!(parse_error_map("0x1,bad header\n").unwrap().is_empty());
}
