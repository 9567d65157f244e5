use generator_native::header::{
    hash_str, hashes_section, header_prologue, lengths_section, name_line, names_close,
    names_open, push_decimal, write_file,
};
use generator_native::hash::sha256;

#[test]
fn data_lines_group_sixteen_bytes() {
    let data: Vec<u8> = (0u8..17).collect();
    let (text, hash, size) = write_file(&data, false);
    assert_eq!(
        text,
        "\t0x00, 0x01, 0x02, 0x03, 0x04, 0x05, 0x06, 0x07, 0x08, 0x09, 0x0a, 0x0b, 0x0c, 0x0d, 0x0e, 0x0f,\n\t0x10,\n"
    );
    assert_eq!(hash, [0u8; 32]);
    assert_eq!(size, 17);
}

#[test]
fn data_lines_empty_file() {
    let (text, hash, size) = write_file(&[], true);
    assert_eq!(text, "");
    assert_eq!(hash, sha256(&[]));
    assert_eq!(size, 0);
}

#[test]
fn data_hash_when_asked() {
    let (text, hash, size) = write_file(b"Hi\xff", true);
    assert_eq!(text, "\t0x48, 0x69, 0xff,\n");
    assert_eq!(hash, sha256(b"Hi\xff"));
    assert_eq!(size, 3);
}

#[test]
fn hash_items() {
    let mut h = [0u8; 32];
    h[0] = 0xab;
    h[31] = 0x01;
    let s = hash_str(&h);
    assert!(s.starts_with("0xab, 0x00, "));
    assert!(s.ends_with("0x00, 0x01, "));
    assert_eq!(s.len(), 32 * 6);
}

#[test]
fn decimal_numbers() {
    for (n, t) in [(0usize, "0"), (7, "7"), (10, "10"), (1234567, "1234567")] {
        let mut s = String::from("x");
        push_decimal(&mut s, n);
        assert_eq!(s, format!("x{}", t));
    }
}

#[test]
fn prologue_with_and_without_hook() {
    assert_eq!(
        header_prologue(true, 2, Some("echo \"hi\"")),
        "#define SILENT\nconstexpr const int DATA_COUNT = 2;\n\
constexpr const char* const DATA_EXEC_AFTER = \"echo \\\"hi\\\"\";\n\
static constexpr auto DATA_EXEC_AFTER_HASH = \"echo \\\"hi\\\"\"_sha256;\n\
constexpr const unsigned char DATA[] = {\n"
    );
    assert_eq!(
        header_prologue(false, 13, None),
        "constexpr const int DATA_COUNT = 13;\n\
constexpr const char* const DATA_EXEC_AFTER = nullptr;\n\
static constexpr auto DATA_EXEC_AFTER_HASH = \"unbound\"_sha256;\n\
constexpr const unsigned char DATA[] = {\n"
    );
}

#[test]
fn lengths_array() {
    assert_eq!(
        lengths_section(&[13, 0]),
        "};\nconstexpr const long DATA_LENGTHS[DATA_COUNT] = {\n\t13ll,\t0ll,\n};\n"
    );
    assert_eq!(lengths_section(&[]), "};\nconstexpr const long DATA_LENGTHS[DATA_COUNT] = {\n\n};\n");
}

#[test]
fn hashes_array() {
    let h = [0u8; 32];
    let s = hashes_section(&[h], true);
    assert!(s.starts_with("#define DATA_HASHED\nconstexpr const unsigned char DATA_HASHES[] = {\n\t0x00, "));
    assert!(s.ends_with("0x00, \n};\n"));
    assert_eq!(hashes_section(&[], false), "constexpr const unsigned char DATA_HASHES[] = {\n};\n");
}

#[test]
fn names_array() {
    assert_eq!(names_open(), "constexpr const char* const DATA_NAMES[DATA_COUNT] = {\n");
    assert_eq!(name_line("a\"b.txt"), "\t\"a\\\"b.txt\",\n");
    assert_eq!(names_close(), "};\n");
}
