use vstd::prelude::*;

use crate::hash::{sha256, sha256_max_input, sha256_of};
use crate::sanitise::{c_escape, c_escape_spec};

verus! {

/// Bytes per line of the data array.
pub const WF_GROUP_SIZE: usize = 16;

/// The lowercase hexadecimal digit of `d`, for `d < 16`.
pub open spec fn hex_digit_spec(d: int) -> char {
    if d < 10 {
        (d + 48) as char
    } else {
        (d + 87) as char
    }
}

/// `0x` and the two lowercase hexadecimal digits of `b` (`{:#04x}`).
pub open spec fn hex_byte(b: u8) -> Seq<char> {
    seq!['0', 'x', hex_digit_spec(b as int / 16), hex_digit_spec(b as int % 16)]
}

/// One byte of the data array: its hexadecimal form and a comma.
pub open spec fn byte_item(b: u8) -> Seq<char> {
    hex_byte(b) + seq![',']
}

/// The items of a group of bytes, separated by single spaces.
pub open spec fn group_items(g: Seq<u8>) -> Seq<char>
    decreases g.len(),
{
    if g.len() == 0 {
        seq![]
    } else if g.len() == 1 {
        byte_item(g[0])
    } else {
        group_items(g.drop_last()) + seq![' '] + byte_item(g.last())
    }
}

/// One line of the data array: a tab, the items of the group, a newline.
pub open spec fn group_line(g: Seq<u8>) -> Seq<char> {
    seq!['\t'] + group_items(g) + seq!['\n']
}

/// The lines of the data array for `data`: one line for each group of
/// [`WF_GROUP_SIZE`] bytes, the last group possibly shorter; nothing for no data.
pub open spec fn data_text(data: Seq<u8>) -> Seq<char>
    decreases data.len(),
{
    if data.len() == 0 {
        seq![]
    } else if data.len() <= WF_GROUP_SIZE {
        group_line(data)
    } else {
        group_line(data.take(WF_GROUP_SIZE as int)) + data_text(data.skip(WF_GROUP_SIZE as int))
    }
}

/// The lowercase hexadecimal digit of `d`.
fn hex_digit(d: u8) -> (c: char)
    requires
        d < 16,
    ensures
        c == hex_digit_spec(d as int),
{
    if d < 10 {
        (d + 48) as char
    } else {
        (d + 87) as char
    }
}

/// Appends `0x` and the two hexadecimal digits of `b`.
fn push_hex_byte(out: &mut String, b: u8)
    ensures
        final(out)@ == old(out)@ + hex_byte(b),
{
    out.push('0');
    out.push('x');
    out.push(hex_digit(b / 16));
    out.push(hex_digit(b % 16));
}

/// Splitting the data after whole groups splits its lines the same way.
pub proof fn lemma_data_text_split(x: Seq<u8>, y: Seq<u8>)
    requires
        x.len() % (WF_GROUP_SIZE as nat) == 0,
    ensures
        data_text(x + y) == data_text(x) + data_text(y),
    decreases x.len(),
{
    if x.len() == 0 {
        assert(x + y =~= y);
        assert(data_text(x) =~= Seq::<char>::empty());
        assert(data_text(x) + data_text(y) =~= data_text(y));
    } else {
        let g = WF_GROUP_SIZE as int;
        lemma_data_text_split(x.skip(g), y);
        assert((x + y).take(g) =~= x.take(g));
        assert((x + y).skip(g) =~= x.skip(g) + y);
        if x.len() == g {
            assert(x.skip(g) =~= Seq::<u8>::empty());
            assert(x.take(g) =~= x);
            assert(data_text(x.skip(g)) =~= Seq::<char>::empty());
        }
        if y.len() == 0 {
            assert(x + y =~= x);
            assert(data_text(y) =~= Seq::<char>::empty());
        }
    }
}

/// The data array lines for the bytes of one input file, its hash and its size:
/// the lines are [`data_text`] of the bytes; the hash is their SHA-256 digest when
/// `hash` holds and 32 zero bytes otherwise; the size is the number of bytes.
pub fn write_file(data: &[u8], hash: bool) -> (r: (String, [u8; 32], usize))
    requires
        hash ==> data@.len() <= sha256_max_input(),
    ensures
        r.0@ == data_text(data@),
        hash ==> r.1@ == sha256_of(data@),
        !hash ==> r.1@ == Seq::new(32, |i: int| 0u8),
        r.2 == data@.len(),
{
    let mut out = String::new();
    let n = data.len();
    let mut start: usize = 0;
    let mut count: usize = 0;
    assert(data_text(data@.take(0)) =~= Seq::<char>::empty());
    while start < n
        invariant
            n == data@.len(),
            start <= n,
            count == start,
            start < n ==> start % WF_GROUP_SIZE == 0,
            out@ == data_text(data@.take(start as int)),
        decreases n - start,
    {
        let end = if n - start > WF_GROUP_SIZE { start + WF_GROUP_SIZE } else { n };
        let ghost grp = data@.subrange(start as int, end as int);
        out.push('\t');
        let ghost line_start = out@;
        let mut i = start;
        while i < end
            invariant
                start < end <= n,
                n == data@.len(),
                start <= i <= end,
                out@ == line_start + group_items(data@.subrange(start as int, i as int)),
            decreases end - i,
        {
            let ghost before = data@.subrange(start as int, i as int);
            assert(data@.subrange(start as int, i + 1) =~= before.push(data@[i as int]));
            assert(data@.subrange(start as int, i + 1).drop_last() =~= before);
            if i > start {
                out.push(' ');
            } else {
                assert(before =~= Seq::<u8>::empty());
                assert(group_items(before) =~= Seq::<char>::empty());
            }
            push_hex_byte(&mut out, data[i]);
            out.push(',');
            i = i + 1;
        }
        out.push('\n');
        proof {
            assert(data@.take(end as int) =~= data@.take(start as int) + grp);
            lemma_data_text_split(data@.take(start as int), grp);
            assert(data_text(grp) == group_line(grp));
        }
        count = count + (end - start);
        start = end;
    }
    assert(data@.take(n as int) =~= data@);
    let digest = if hash {
        sha256(data)
    } else {
        let z = [0u8; 32];
        assert(z@ =~= Seq::new(32, |i: int| 0u8));
        z
    };
    (out, digest, count)
}


/// A hash as C array items: each byte as `0x` and two hexadecimal digits, then `, `.
pub open spec fn hash_text(h: Seq<u8>) -> Seq<char>
    decreases h.len(),
{
    if h.len() == 0 {
        seq![]
    } else {
        hash_text(h.drop_last()) + hex_byte(h.last()) + seq![',', ' ']
    }
}

/// The items of a hash for the hash array, as [`hash_text`] states.
pub fn hash_str(hash: &[u8; 32]) -> (r: String)
    ensures
        r@ == hash_text(hash@),
{
    let mut output = String::new();
    let mut i: usize = 0;
    assert(hash@.take(0) =~= Seq::<u8>::empty());
    while i < 32
        invariant
            i <= 32,
            hash@.len() == 32,
            output@ == hash_text(hash@.take(i as int)),
        decreases 32 - i,
    {
        assert(hash@.take(i + 1).drop_last() =~= hash@.take(i as int));
        push_hex_byte(&mut output, hash[i]);
        output.push(',');
        output.push(' ');
        i = i + 1;
    }
    assert(hash@.take(32) =~= hash@);
    output
}

/// The decimal digit of `d`, for `d < 10`.
pub open spec fn decimal_digit(d: int) -> char {
    (d + 48) as char
}

/// The decimal form of `n`, without leading zeros (`0` for zero).
pub open spec fn decimal(n: nat) -> Seq<char>
    decreases n,
{
    if n < 10 {
        seq![decimal_digit(n as int)]
    } else {
        decimal(n / 10).push(decimal_digit((n % 10) as int))
    }
}

/// Appends the decimal form of `n`.
pub fn push_decimal(out: &mut String, n: usize)
    ensures
        final(out)@ == old(out)@ + decimal(n as nat),
    decreases n,
{
    if n >= 10 {
        push_decimal(out, n / 10);
    }
    let d = (n % 10) as u8;
    out.push((d + 48) as char);
}

/// The opening of the generated header: `#define SILENT` when `silent` holds, the
/// number of files, the post-extraction hook `exec` escaped for C (or none), and the
/// opening of the data array.
pub open spec fn prologue_text(silent: bool, count: nat, exec: Option<Seq<char>>) -> Seq<char> {
    (if silent { "#define SILENT\n"@ } else { Seq::<char>::empty() })
    + "constexpr const int DATA_COUNT = "@ + decimal(count) + ";\n"@
    + match exec {
        Some(e) =>
            "constexpr const char* const DATA_EXEC_AFTER = \""@ + c_escape_spec(e) + "\";\n"@
            + "static constexpr auto DATA_EXEC_AFTER_HASH = \""@ + c_escape_spec(e) + "\"_sha256;\n"@,
        None =>
            "constexpr const char* const DATA_EXEC_AFTER = nullptr;\n"@
            + "static constexpr auto DATA_EXEC_AFTER_HASH = \"unbound\"_sha256;\n"@,
    }
    + "constexpr const unsigned char DATA[] = {\n"@
}

/// The opening of the generated header, as [`prologue_text`] states.
pub fn header_prologue(silent: bool, count: usize, exec: Option<&str>) -> (r: String)
    ensures
        r@ == prologue_text(silent, count as nat, match exec { Some(e) => Some(e@), None => None }),
{
    let mut out = String::new();
    if silent {
        out.push_str("#define SILENT\n");
    }
    out.push_str("constexpr const int DATA_COUNT = ");
    push_decimal(&mut out, count);
    out.push_str(";\n");
    match exec {
        Some(e) => {
            let esc = c_escape(e);
            out.push_str("constexpr const char* const DATA_EXEC_AFTER = \"");
            out.push_str(esc.as_str());
            out.push_str("\";\n");
            out.push_str("static constexpr auto DATA_EXEC_AFTER_HASH = \"");
            out.push_str(esc.as_str());
            out.push_str("\"_sha256;\n");
        },
        None => {
            out.push_str("constexpr const char* const DATA_EXEC_AFTER = nullptr;\n");
            out.push_str("static constexpr auto DATA_EXEC_AFTER_HASH = \"unbound\"_sha256;\n");
        },
    }
    out.push_str("constexpr const unsigned char DATA[] = {\n");
    out
}

/// The sizes as items of the lengths array: a tab, the decimal size and `ll,` for each.
pub open spec fn lengths_items(sizes: Seq<usize>) -> Seq<char>
    decreases sizes.len(),
{
    if sizes.len() == 0 {
        seq![]
    } else {
        lengths_items(sizes.drop_last()) + seq!['\t'] + decimal(sizes.last() as nat) + "ll,"@
    }
}

/// The close of the data array and the lengths array.
pub open spec fn lengths_text(sizes: Seq<usize>) -> Seq<char> {
    "};\n"@ + "constexpr const long DATA_LENGTHS[DATA_COUNT] = {\n"@ + lengths_items(sizes) + "\n};\n"@
}

/// The close of the data array and the lengths array of the files' sizes, as
/// [`lengths_text`] states.
pub fn lengths_section(sizes: &[usize]) -> (r: String)
    ensures
        r@ == lengths_text(sizes@),
{
    let mut out = String::new();
    out.push_str("};\n");
    out.push_str("constexpr const long DATA_LENGTHS[DATA_COUNT] = {\n");
    let ghost head = out@;
    let mut i: usize = 0;
    assert(sizes@.take(0) =~= Seq::<usize>::empty());
    while i < sizes.len()
        invariant
            i <= sizes@.len(),
            out@ == head + lengths_items(sizes@.take(i as int)),
        decreases sizes@.len() - i,
    {
        assert(sizes@.take(i + 1).drop_last() =~= sizes@.take(i as int));
        out.push('\t');
        push_decimal(&mut out, sizes[i]);
        out.push_str("ll,");
        i = i + 1;
    }
    assert(sizes@.take(sizes@.len() as int) =~= sizes@);
    out.push_str("\n};\n");
    out
}

/// The lines of the hash array: a tab, the hash's items and a newline for each.
pub open spec fn hash_lines(hashes: Seq<[u8; 32]>) -> Seq<char>
    decreases hashes.len(),
{
    if hashes.len() == 0 {
        seq![]
    } else {
        hash_lines(hashes.drop_last()) + seq!['\t'] + hash_text(hashes.last()@) + seq!['\n']
    }
}

/// `#define DATA_HASHED` when the inputs were hashed, then the hash array.
pub open spec fn hashes_text(hashes: Seq<[u8; 32]>, hashed: bool) -> Seq<char> {
    (if hashed { "#define DATA_HASHED\n"@ } else { Seq::<char>::empty() })
    + "constexpr const unsigned char DATA_HASHES[] = {\n"@ + hash_lines(hashes) + "};\n"@
}

/// The hash array of the files' hashes, as [`hashes_text`] states.
pub fn hashes_section(hashes: &[[u8; 32]], hashed: bool) -> (r: String)
    ensures
        r@ == hashes_text(hashes@, hashed),
{
    let mut out = String::new();
    if hashed {
        out.push_str("#define DATA_HASHED\n");
    }
    out.push_str("constexpr const unsigned char DATA_HASHES[] = {\n");
    let ghost head = out@;
    let mut i: usize = 0;
    assert(hashes@.take(0) =~= Seq::<[u8; 32]>::empty());
    while i < hashes.len()
        invariant
            i <= hashes@.len(),
            out@ == head + hash_lines(hashes@.take(i as int)),
        decreases hashes@.len() - i,
    {
        assert(hashes@.take(i + 1).drop_last() =~= hashes@.take(i as int));
        out.push('\t');
        let h = hash_str(&hashes[i]);
        out.push_str(h.as_str());
        out.push('\n');
        i = i + 1;
    }
    assert(hashes@.take(hashes@.len() as int) =~= hashes@);
    out.push_str("};\n");
    out
}

/// The opening of the names array.
pub fn names_open() -> (r: String)
    ensures
        r@ == "constexpr const char* const DATA_NAMES[DATA_COUNT] = {\n"@,
{
    let mut out = String::new();
    out.push_str("constexpr const char* const DATA_NAMES[DATA_COUNT] = {\n");
    out
}

/// The line of the names array for a file named `name`: a tab, the name escaped
/// for C between double quotes, a comma, a newline.
pub fn name_line(name: &str) -> (r: String)
    ensures
        r@ == "\t\""@ + c_escape_spec(name@) + "\",\n"@,
{
    let mut out = String::new();
    out.push_str("\t\"");
    let esc = c_escape(name);
    out.push_str(esc.as_str());
    out.push_str("\",\n");
    out
}

/// The close of the names array, the last line of the header.
pub fn names_close() -> (r: String)
    ensures
        r@ == "};\n"@,
{
    let mut out = String::new();
    out.push_str("};\n");
    out
}


/// The number a string of decimal digits stands for.
pub open spec fn decimal_value(s: Seq<char>) -> int
    decreases s.len(),
{
    if s.len() == 0 {
        0
    } else {
        decimal_value(s.drop_last()) * 10 + (s.last() as int - 48)
    }
}

/// The decimal form of a number is made of digits, starts with a digit other than
/// `0` unless the number is zero, and reads back as the number.
pub proof fn law_decimal_roundtrip(n: nat)
    ensures
        decimal_value(decimal(n)) == n,
        decimal(n).len() >= 1,
        forall|i: int| 0 <= i < decimal(n).len() ==> '0' <= #[trigger] decimal(n)[i] <= '9',
        n > 0 ==> decimal(n)[0] != '0',
    decreases n,
{
    if n < 10 {
        assert(decimal(n).drop_last() =~= Seq::<char>::empty());
        assert(decimal(n).last() as int - 48 == n);
        assert(decimal_value(decimal(n)) == decimal_value(Seq::<char>::empty()) * 10 + n);
    } else {
        law_decimal_roundtrip(n / 10);
        assert(decimal(n).drop_last() =~= decimal(n / 10));
        assert((n / 10) * 10 + n % 10 == n) by (nonlinear_arith);
        assert(decimal(n).last() as int - 48 == n % 10);
        assert(decimal_value(decimal(n)) == decimal_value(decimal(n / 10)) * 10 + n % 10);
        assert forall|i: int| 0 <= i < decimal(n).len() implies '0' <= #[trigger] decimal(n)[i] <= '9' by {
            if i < decimal(n).len() - 1 {
                assert(decimal(n)[i] == decimal(n / 10)[i]);
            }
        }
    }
}

/// Whether a character only lays out the data array (space, tab, newline).
pub open spec fn is_layout(c: char) -> bool {
    c == ' ' || c == '\t' || c == '\n'
}

/// A text without its layout characters.
pub open spec fn strip_layout(s: Seq<char>) -> Seq<char>
    decreases s.len(),
{
    if s.len() == 0 {
        seq![]
    } else if is_layout(s.last()) {
        strip_layout(s.drop_last())
    } else {
        strip_layout(s.drop_last()).push(s.last())
    }
}

/// The items of the bytes, one after the other.
pub open spec fn items_text(d: Seq<u8>) -> Seq<char>
    decreases d.len(),
{
    if d.len() == 0 {
        seq![]
    } else {
        items_text(d.drop_last()) + byte_item(d.last())
    }
}

/// Removing layout distributes over concatenation.
pub proof fn lemma_strip_concat(a: Seq<char>, b: Seq<char>)
    ensures
        strip_layout(a + b) == strip_layout(a) + strip_layout(b),
    decreases b.len(),
{
    if b.len() == 0 {
        assert(a + b =~= a);
        assert(strip_layout(a) + strip_layout(b) =~= strip_layout(a));
    } else {
        lemma_strip_concat(a, b.drop_last());
        assert((a + b).drop_last() =~= a + b.drop_last());
        assert((a + b).last() == b.last());
        if !is_layout(b.last()) {
            assert(strip_layout(a) + strip_layout(b.drop_last()).push(b.last())
                =~= (strip_layout(a) + strip_layout(b.drop_last())).push(b.last()));
        }
    }
}

/// An item holds no layout character.
pub proof fn lemma_strip_item(b: u8)
    ensures
        strip_layout(byte_item(b)) == byte_item(b),
{
    let t = byte_item(b);
    reveal_with_fuel(strip_layout, 6);
    assert(t.drop_last().drop_last().drop_last().drop_last().drop_last() =~= Seq::<char>::empty());
    assert(t.drop_last().drop_last().drop_last().drop_last() =~= seq!['0']);
    assert(t.drop_last().drop_last().drop_last() =~= seq!['0', 'x']);
    assert(t.drop_last().drop_last() =~= seq!['0', 'x', hex_digit_spec(b as int / 16)]);
    assert(t.drop_last() =~= hex_byte(b));
    assert(strip_layout(t) =~= t);
}

/// The items of concatenated bytes are the concatenated items.
pub proof fn lemma_items_concat(a: Seq<u8>, b: Seq<u8>)
    ensures
        items_text(a + b) == items_text(a) + items_text(b),
    decreases b.len(),
{
    if b.len() == 0 {
        assert(a + b =~= a);
        assert(items_text(a) + items_text(b) =~= items_text(a));
    } else {
        lemma_items_concat(a, b.drop_last());
        assert((a + b).drop_last() =~= a + b.drop_last());
        assert((a + b).last() == b.last());
    }
}

/// A single layout character vanishes without its layout.
pub proof fn lemma_strip_layout_char(c: char)
    requires
        is_layout(c),
    ensures
        strip_layout(seq![c]) == Seq::<char>::empty(),
{
    assert(seq![c].drop_last() =~= Seq::<char>::empty());
    assert(seq![c].last() == c);
    assert(strip_layout(Seq::<char>::empty()) =~= Seq::<char>::empty());
}

/// Without its layout, a group's line is the group's items.
pub proof fn lemma_strip_group(g: Seq<u8>)
    ensures
        strip_layout(group_items(g)) == items_text(g),
        strip_layout(group_line(g)) == items_text(g),
    decreases g.len(),
{
    if g.len() == 0 {
        assert(strip_layout(group_items(g)) =~= Seq::<char>::empty());
    } else if g.len() == 1 {
        lemma_strip_item(g[0]);
        assert(g.drop_last() =~= Seq::<u8>::empty());
        assert(items_text(g.drop_last()) =~= Seq::<char>::empty());
        assert(items_text(g) =~= byte_item(g[0]));
    } else {
        lemma_strip_group(g.drop_last());
        lemma_strip_item(g.last());
        lemma_strip_concat(group_items(g.drop_last()) + seq![' '], byte_item(g.last()));
        lemma_strip_concat(group_items(g.drop_last()), seq![' ']);
        lemma_strip_layout_char(' ');
    }
    lemma_strip_concat(seq!['\t'] + group_items(g), seq!['\n']);
    lemma_strip_concat(seq!['\t'], group_items(g));
    lemma_strip_layout_char('\t');
    lemma_strip_layout_char('\n');
}

/// Without its layout, the data array of a file is the items of its bytes, in order.
pub proof fn law_data_text_items(d: Seq<u8>)
    ensures
        strip_layout(data_text(d)) == items_text(d),
    decreases d.len(),
{
    if d.len() == 0 {
        assert(strip_layout(data_text(d)) =~= Seq::<char>::empty());
    } else if d.len() <= WF_GROUP_SIZE {
        lemma_strip_group(d);
    } else {
        let g = WF_GROUP_SIZE as int;
        law_data_text_items(d.skip(g));
        lemma_strip_group(d.take(g));
        lemma_strip_concat(group_line(d.take(g)), data_text(d.skip(g)));
        assert(d =~= d.take(g) + d.skip(g));
        lemma_items_concat(d.take(g), d.skip(g));
    }
}

/// The value of a lowercase hexadecimal digit.
pub open spec fn hex_value(c: char) -> int {
    if c <= '9' {
        c as int - 48
    } else {
        c as int - 87
    }
}

/// The bytes that a run of items stands for: each item is five characters,
/// `0x`, two hexadecimal digits and a comma.
pub open spec fn decode_items(s: Seq<char>) -> Seq<u8> {
    Seq::new(s.len() / 5, |i: int| (hex_value(s[5 * i + 2]) * 16 + hex_value(s[5 * i + 3])) as u8)
}

/// Each byte takes five characters of items.
pub proof fn lemma_items_len(d: Seq<u8>)
    ensures
        items_text(d).len() == 5 * d.len(),
        forall|i: int| 0 <= i < d.len() ==> items_text(d).subrange(5 * i, 5 * i + 5) == byte_item(#[trigger] d[i]),
    decreases d.len(),
{
    if d.len() > 0 {
        lemma_items_len(d.drop_last());
        let p = items_text(d.drop_last());
        assert forall|i: int| 0 <= i < d.len() implies items_text(d).subrange(5 * i, 5 * i + 5) == byte_item(#[trigger] d[i]) by {
            if i < d.len() - 1 {
                assert(d.drop_last()[i] == d[i]);
                assert(items_text(d).subrange(5 * i, 5 * i + 5) =~= p.subrange(5 * i, 5 * i + 5));
            } else {
                assert(items_text(d).subrange(5 * i, 5 * i + 5) =~= byte_item(d.last()));
            }
        }
    }
}

/// Whether a character is a lowercase hexadecimal digit.
pub open spec fn is_hex_digit(c: char) -> bool {
    ('0' <= c <= '9') || ('a' <= c <= 'f')
}

/// The hexadecimal digit of a value below 16 is a digit that reads back as the value.
pub proof fn lemma_hex_digit_roundtrip(d: int)
    requires
        0 <= d < 16,
    ensures
        is_hex_digit(hex_digit_spec(d)),
        hex_value(hex_digit_spec(d)) == d,
{
}

/// Reading a run of items back gives the bytes they were made from.
pub proof fn lemma_decode_items(d: Seq<u8>)
    ensures
        decode_items(items_text(d)) == d,
{
    lemma_items_len(d);
    let t = items_text(d);
    assert forall|i: int| 0 <= i < d.len() implies #[trigger] decode_items(t)[i] == d[i] by {
        let item = t.subrange(5 * i, 5 * i + 5);
        assert(item == byte_item(d[i]));
        assert(t[5 * i + 2] == item[2]);
        assert(t[5 * i + 3] == item[3]);
        let b = d[i];
        lemma_hex_digit_roundtrip(b as int / 16);
        lemma_hex_digit_roundtrip(b as int % 16);
    }
    assert(decode_items(t) =~= d);
}

/// Reading the data array of a file back, ignoring its layout, gives the file's bytes.
pub proof fn law_data_text_roundtrip(d: Seq<u8>)
    ensures
        decode_items(strip_layout(data_text(d))) == d,
{
    law_data_text_items(d);
    lemma_decode_items(d);
}

/// The bytes that the items of a hash stand for: each item is six characters,
/// `0x`, two hexadecimal digits, a comma and a space.
pub open spec fn decode_hash_items(s: Seq<char>) -> Seq<u8> {
    Seq::new(s.len() / 6, |i: int| (hex_value(s[6 * i + 2]) * 16 + hex_value(s[6 * i + 3])) as u8)
}

/// The items of a hash are six characters for each byte: `0x`, two lowercase
/// hexadecimal digits, `,` and a space; and they read back as the hash, byte for byte.
pub proof fn law_hash_text_roundtrip(h: Seq<u8>)
    ensures
        hash_text(h).len() == 6 * h.len(),
        forall|i: int| 0 <= i < h.len() ==> {
            &&& #[trigger] hash_text(h)[6 * i] == '0'
            &&& hash_text(h)[6 * i + 1] == 'x'
            &&& is_hex_digit(hash_text(h)[6 * i + 2])
            &&& is_hex_digit(hash_text(h)[6 * i + 3])
            &&& hash_text(h)[6 * i + 4] == ','
            &&& hash_text(h)[6 * i + 5] == ' '
        },
        decode_hash_items(hash_text(h)) == h,
    decreases h.len(),
{
    if h.len() > 0 {
        let p = h.drop_last();
        law_hash_text_roundtrip(p);
        let t = hash_text(h);
        let b = h.last();
        assert(t == hash_text(p) + hex_byte(b) + seq![',', ' ']);
        lemma_hex_digit_roundtrip(b as int / 16);
        lemma_hex_digit_roundtrip(b as int % 16);
        assert forall|i: int| 0 <= i < h.len() implies {
            &&& #[trigger] t[6 * i] == '0'
            &&& t[6 * i + 1] == 'x'
            &&& is_hex_digit(t[6 * i + 2])
            &&& is_hex_digit(t[6 * i + 3])
            &&& t[6 * i + 4] == ','
            &&& t[6 * i + 5] == ' '
            &&& (hex_value(t[6 * i + 2]) * 16 + hex_value(t[6 * i + 3])) as u8 == h[i]
        } by {
            if i < h.len() - 1 {
                assert(p[i] == h[i]);
                assert(t[6 * i] == hash_text(p)[6 * i]);
                assert(t[6 * i + 1] == hash_text(p)[6 * i + 1]);
                assert(t[6 * i + 2] == hash_text(p)[6 * i + 2]);
                assert(t[6 * i + 3] == hash_text(p)[6 * i + 3]);
                assert(t[6 * i + 4] == hash_text(p)[6 * i + 4]);
                assert(t[6 * i + 5] == hash_text(p)[6 * i + 5]);
                assert(decode_hash_items(hash_text(p))[i] == h[i]);
                assert(hash_text(p).len() / 6 == p.len());
                assert(hash_text(p)[6 * i] == '0');
            } else {
                let q = hash_text(p).len();
                assert(q == 6 * i);
                assert(t[6 * i] == hex_byte(b)[0]);
                assert(t[6 * i + 1] == hex_byte(b)[1]);
                assert(t[6 * i + 2] == hex_byte(b)[2]);
                assert(t[6 * i + 3] == hex_byte(b)[3]);
                assert(t[6 * i + 4] == ',');
                assert(t[6 * i + 5] == ' ');
                assert(h[i] == b);
                assert(b as int == (b as int / 16) * 16 + b as int % 16);
            }
        }
        assert(t.len() / 6 == h.len());
        assert forall|i: int| 0 <= i < h.len() implies #[trigger] decode_hash_items(t)[i] == h[i] by {
            assert(t[6 * i] == '0');
        }
        assert forall|i: int| 0 <= i < h.len() implies {
            &&& #[trigger] hash_text(h)[6 * i] == '0'
            &&& hash_text(h)[6 * i + 1] == 'x'
            &&& is_hex_digit(hash_text(h)[6 * i + 2])
            &&& is_hex_digit(hash_text(h)[6 * i + 3])
            &&& hash_text(h)[6 * i + 4] == ','
            &&& hash_text(h)[6 * i + 5] == ' '
        } by {
            assert(t[6 * i] == '0');
        }
        assert(decode_hash_items(t) =~= h);
    } else {
        assert(decode_hash_items(hash_text(h)) =~= h);
    }
}


/// A text cut at its tabs: the pieces between tabs, in order (one piece when there is no tab).
pub open spec fn tab_fields(s: Seq<char>) -> Seq<Seq<char>>
    decreases s.len(),
{
    if s.len() == 0 {
        seq![Seq::<char>::empty()]
    } else if s.last() == '\t' {
        tab_fields(s.drop_last()).push(Seq::<char>::empty())
    } else {
        let f = tab_fields(s.drop_last());
        f.update(f.len() - 1, f.last().push(s.last()))
    }
}

/// A text cut at its tabs has at least one piece.
pub proof fn lemma_tab_fields_nonempty(s: Seq<char>)
    ensures
        tab_fields(s).len() >= 1,
    decreases s.len(),
{
    if s.len() > 0 {
        lemma_tab_fields_nonempty(s.drop_last());
    }
}

/// Appending text without a tab extends the last piece.
pub proof fn lemma_tab_fields_append(x: Seq<char>, y: Seq<char>)
    requires
        forall|i: int| 0 <= i < y.len() ==> #[trigger] y[i] != '\t',
    ensures
        tab_fields(x + y) == tab_fields(x).update(tab_fields(x).len() - 1, tab_fields(x).last() + y),
    decreases y.len(),
{
    lemma_tab_fields_nonempty(x);
    if y.len() == 0 {
        assert(x + y =~= x);
        assert(tab_fields(x).last() + y =~= tab_fields(x).last());
        assert(tab_fields(x).update(tab_fields(x).len() - 1, tab_fields(x).last()) =~= tab_fields(x));
    } else {
        let y0 = y.drop_last();
        assert forall|i: int| 0 <= i < y0.len() implies #[trigger] y0[i] != '\t' by {
            assert(y0[i] == y[i]);
        }
        lemma_tab_fields_append(x, y0);
        assert((x + y).drop_last() =~= x + y0);
        assert((x + y).last() == y[y.len() - 1]);
        let f = tab_fields(x);
        assert(f.last() + y =~= (f.last() + y0).push(y.last()));
        assert(tab_fields(x + y) =~= f.update(f.len() - 1, f.last() + y));
    }
}

/// One item of the lengths array after its tab: the decimal size and `ll,`.
pub open spec fn length_field(size: usize) -> Seq<char> {
    decimal(size as nat) + "ll,"@
}

/// Cut at its tabs, the lengths array is an empty piece, then one piece for each size.
pub proof fn lemma_lengths_fields(sizes: Seq<usize>)
    ensures
        tab_fields(lengths_items(sizes)) == seq![Seq::<char>::empty()]
            + Seq::new(sizes.len(), |k: int| length_field(sizes[k])),
    decreases sizes.len(),
{
    reveal_strlit("ll,");
    if sizes.len() == 0 {
        assert(tab_fields(lengths_items(sizes)) =~= seq![Seq::<char>::empty()]);
        assert(seq![Seq::<char>::empty()] + Seq::new(0, |k: int| length_field(sizes[k]))
            =~= seq![Seq::<char>::empty()]);
    } else {
        let p = sizes.drop_last();
        lemma_lengths_fields(p);
        let w = length_field(sizes.last());
        law_decimal_roundtrip(sizes.last() as nat);
        assert forall|i: int| 0 <= i < w.len() implies #[trigger] w[i] != '\t' by {
            let d = decimal(sizes.last() as nat);
            if i < d.len() {
                assert(w[i] == d[i]);
            } else {
                assert(w[i] == "ll,"@[i - d.len()]);
            }
        }
        let x = lengths_items(p).push('\t');
        assert(lengths_items(sizes) =~= x + w);
        lemma_tab_fields_append(x, w);
        assert(x.drop_last() =~= lengths_items(p));
        assert(tab_fields(x) == tab_fields(lengths_items(p)).push(Seq::<char>::empty()));
        assert(Seq::<char>::empty() + w =~= w);
        assert(tab_fields(lengths_items(sizes)) =~= seq![Seq::<char>::empty()]
            + Seq::new(sizes.len(), |k: int| length_field(sizes[k])));
    }
}

/// Each item of the lengths array reads back as its file's size, whatever the size:
/// cut at its tabs, the array is an empty piece and then, for the k-th size, decimal
/// digits whose value is that size, followed by `ll,`.
pub proof fn law_lengths_roundtrip(sizes: Seq<usize>)
    ensures
        tab_fields(lengths_items(sizes)).len() == sizes.len() + 1,
        tab_fields(lengths_items(sizes))[0].len() == 0,
        forall|k: int| 0 <= k < sizes.len() ==> {
            let f = #[trigger] tab_fields(lengths_items(sizes))[k + 1];
            &&& f.len() >= 4
            &&& f.subrange(f.len() - 3, f.len() as int) == "ll,"@
            &&& forall|j: int| 0 <= j < f.len() - 3 ==> '0' <= #[trigger] f[j] <= '9'
            &&& decimal_value(f.take(f.len() - 3)) == sizes[k]
        },
{
    reveal_strlit("ll,");
    lemma_lengths_fields(sizes);
    let t = tab_fields(lengths_items(sizes));
    assert forall|k: int| 0 <= k < sizes.len() implies {
        let f = #[trigger] t[k + 1];
        &&& f.len() >= 4
        &&& f.subrange(f.len() - 3, f.len() as int) == "ll,"@
        &&& forall|j: int| 0 <= j < f.len() - 3 ==> '0' <= #[trigger] f[j] <= '9'
        &&& decimal_value(f.take(f.len() - 3)) == sizes[k]
    } by {
        let d = decimal(sizes[k] as nat);
        law_decimal_roundtrip(sizes[k] as nat);
        let f = t[k + 1];
        assert(f == length_field(sizes[k]));
        assert(f.take(f.len() - 3) =~= d);
        assert(f.subrange(f.len() - 3, f.len() as int) =~= "ll,"@);
        assert forall|j: int| 0 <= j < f.len() - 3 implies '0' <= #[trigger] f[j] <= '9' by {
            assert(f[j] == d[j]);
        }
    }
}


/// The items of a hash hold no tab.
pub proof fn lemma_hash_text_no_tab(h: Seq<u8>)
    ensures
        forall|j: int| 0 <= j < hash_text(h).len() ==> #[trigger] hash_text(h)[j] != '\t',
    decreases h.len(),
{
    if h.len() > 0 {
        let p = h.drop_last();
        lemma_hash_text_no_tab(p);
        let b = h.last();
        let t = hash_text(h);
        lemma_hex_digit_roundtrip(b as int / 16);
        lemma_hex_digit_roundtrip(b as int % 16);
        assert forall|j: int| 0 <= j < t.len() implies #[trigger] t[j] != '\t' by {
            if j < hash_text(p).len() {
                assert(t[j] == hash_text(p)[j]);
            }
        }
    }
}

} // verus!
