use simulatron::hexprint::{pretty_print_hex_block, pretty_print_hex_block_zero};

#[test]
fn test_hex_block_single_byte() {
    let expected = format!("0x00000010    41{}  |A|", " ".repeat(48));
    assert_eq!(pretty_print_hex_block(&vec![0x41], 0x10), expected);
}

#[test]
fn test_hex_block_rows() {
    let mut buf = b"Hello, world!!!!".to_vec();
    buf.push(0x00);
    buf.push(0x7F);
    let expected = format!(
        "0x00000000    48 65 6C 6C  6F 2C 20 77  6F 72 6C 64  21 21 21 21  |Hello, world!!!!|\n\
         0x00000010    00 7F{}  |..|",
        " ".repeat(45)
    );
    assert_eq!(pretty_print_hex_block_zero(&buf), expected);
}

#[test]
fn test_hex_block_empty() {
    assert_eq!(pretty_print_hex_block_zero(&vec![]), "");
}

#[test]
fn test_hex_block_full_row_no_newline() {
    let buf: Vec<u8> = (0x20..0x30).collect();
    assert_eq!(
        pretty_print_hex_block(&buf, 0xABC),
        "0x00000ABC    20 21 22 23  24 25 26 27  28 29 2A 2B  2C 2D 2E 2F  | !\"#$%&'()*+,-./|"
    );
}
