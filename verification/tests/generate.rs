use generator_native::generate::render_header;
use generator_native::hash::sha256;
use generator_native::header::hash_str;

#[test]
fn whole_header_for_two_files() {
    let paths = vec!["in/a.txt".to_string(), "b\"q".to_string()];
    let contents = vec![b"A".to_vec(), Vec::new()];
    let (text, error) = render_header(false, Some("cat %location/a.txt"), true, &paths, &contents);
    assert_eq!(error, None);
    let expected = format!(
        "constexpr const int DATA_COUNT = 2;\n\
constexpr const char* const DATA_EXEC_AFTER = \"cat %location/a.txt\";\n\
static constexpr auto DATA_EXEC_AFTER_HASH = \"cat %location/a.txt\"_sha256;\n\
constexpr const unsigned char DATA[] = {{\n\
\t0x41,\n\
}};\n\
constexpr const long DATA_LENGTHS[DATA_COUNT] = {{\n\
\t1ll,\t0ll,\n\
}};\n\
#define DATA_HASHED\n\
constexpr const unsigned char DATA_HASHES[] = {{\n\
\t{}\n\
\t{}\n\
}};\n\
constexpr const char* const DATA_NAMES[DATA_COUNT] = {{\n\
\t\"a.txt\",\n\
\t\"b\\\"q\",\n\
}};\n",
        hash_str(&sha256(b"A")),
        hash_str(&sha256(b""))
    );
    assert_eq!(text, expected);
}

#[test]
fn header_stops_at_a_path_without_name() {
    let paths = vec!["x".to_string(), "/".to_string(), "y".to_string()];
    let contents = vec![Vec::new(), Vec::new(), Vec::new()];
    let (text, error) = render_header(true, None, false, &paths, &contents);
    assert_eq!(error, Some("No filename, are you trying to add a directory?"));
    assert!(text.starts_with("#define SILENT\n"));
    assert!(!text.contains("#define DATA_HASHED"));
    assert!(text.ends_with("constexpr const char* const DATA_NAMES[DATA_COUNT] = {\n\t\"x\",\n"));
}
