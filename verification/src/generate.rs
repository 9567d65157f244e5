use vstd::prelude::*;

use crate::arg::texts;
use crate::hash::{buffers, sha256_max_input, sha256_of};
use crate::header::{
    decode_hash_items, decode_items, items_text, law_hash_text_roundtrip, lemma_hash_text_no_tab,
    lemma_tab_fields_append, tab_fields, lengths_items, law_data_text_items, lemma_decode_items, lemma_items_concat,
    lemma_strip_concat, strip_layout,
    data_text, hash_lines, hash_text, hashes_section, header_prologue, lengths_section,
    lengths_text, name_line, names_close, names_open, prologue_text, write_file,
};
use crate::program::{attempt_get_name, path_file_name};
use crate::sanitise::c_escape_spec;

verus! {

/// The hash that the header records for a file: its SHA-256 digest when the inputs
/// are hashed, 32 zero bytes otherwise.
pub open spec fn digest_of(d: Seq<u8>, hash: bool) -> Seq<u8> {
    if hash {
        sha256_of(d)
    } else {
        Seq::new(32, |i: int| 0u8)
    }
}

/// The data array lines of the files, one file after the other.
pub open spec fn data_section(cs: Seq<Seq<u8>>) -> Seq<char>
    decreases cs.len(),
{
    if cs.len() == 0 {
        seq![]
    } else {
        data_section(cs.drop_last()) + data_text(cs.last())
    }
}

/// The sizes of the files.
pub open spec fn sizes_of(cs: Seq<Seq<u8>>) -> Seq<usize> {
    Seq::new(cs.len(), |i: int| cs[i].len() as usize)
}

/// The lines of the hash array: a tab, the file's hash items and a newline for each file.
pub open spec fn digest_lines(cs: Seq<Seq<u8>>, hash: bool) -> Seq<char>
    decreases cs.len(),
{
    if cs.len() == 0 {
        seq![]
    } else {
        digest_lines(cs.drop_last(), hash) + seq!['\t'] + hash_text(digest_of(cs.last(), hash)) + seq!['\n']
    }
}

/// `#define DATA_HASHED` when the inputs are hashed, then the hash array of the files.
pub open spec fn digests_text(cs: Seq<Seq<u8>>, hash: bool) -> Seq<char> {
    (if hash { "#define DATA_HASHED\n"@ } else { Seq::<char>::empty() })
    + "constexpr const unsigned char DATA_HASHES[] = {\n"@ + digest_lines(cs, hash) + "};\n"@
}

/// The line of the names array for a file named `name`.
pub open spec fn name_entry(name: Seq<char>) -> Seq<char> {
    "\t\""@ + c_escape_spec(name) + "\",\n"@
}

/// The lines of the names array for the paths, up to the first path that has no file
/// name, and whether every path has one.
pub open spec fn names_part(ps: Seq<Seq<char>>) -> (Seq<char>, bool)
    decreases ps.len(),
{
    if ps.len() == 0 {
        (seq![], true)
    } else {
        let prev = names_part(ps.drop_last());
        if !prev.1 {
            prev
        } else {
            match path_file_name(ps.last()) {
                Some(n) => (prev.0 + name_entry(n), true),
                None => (prev.0, false),
            }
        }
    }
}

/// The header up to and with the opening of the names array.
pub open spec fn header_head(
    silent: bool,
    exec: Option<Seq<char>>,
    hash: bool,
    ps: Seq<Seq<char>>,
    cs: Seq<Seq<u8>>,
) -> Seq<char> {
    prologue_text(silent, ps.len(), exec) + data_section(cs) + lengths_text(sizes_of(cs))
    + digests_text(cs, hash) + "constexpr const char* const DATA_NAMES[DATA_COUNT] = {\n"@
}

/// The whole header for the files at paths `ps` with contents `cs`: the opening, the
/// data array of every file in turn, the lengths array, the hash array and the names
/// array; the i-th length, hash and name are those of the i-th file. When a path has
/// no file name, the names array stops before it and is not closed.
pub open spec fn header_text(
    silent: bool,
    exec: Option<Seq<char>>,
    hash: bool,
    ps: Seq<Seq<char>>,
    cs: Seq<Seq<u8>>,
) -> Seq<char> {
    header_head(silent, exec, hash, ps, cs) + names_part(ps).0 + (if names_part(ps).1 { "};\n"@ } else { Seq::<char>::empty() })
}

/// Renders the header for the files at `paths` with contents `contents`, as
/// [`header_text`] states, with the error that stopped it: `None` when every path has a
/// file name.
pub fn render_header(
    silent: bool,
    exec: Option<&str>,
    hash: bool,
    paths: &[String],
    contents: &[Vec<u8>],
) -> (r: (String, Option<&'static str>))
    requires
        paths@.len() == contents@.len(),
        hash ==> forall|i: int| 0 <= i < contents@.len() ==> #[trigger] contents@[i]@.len() <= sha256_max_input(),
    ensures
        r.0@ == header_text(
            silent,
            match exec { Some(e) => Some(e@), None => None },
            hash,
            texts(paths@),
            buffers(contents@),
        ),
        r.1 is None <==> names_part(texts(paths@)).1,
        r.1 matches Some(e) ==> e@ == "No filename, are you trying to add a directory?"@,
{
    let ghost ps = texts(paths@);
    let ghost cs = buffers(contents@);
    let n = contents.len();
    let mut out = header_prologue(silent, paths.len(), exec);
    let ghost pro = out@;
    let mut sizes: Vec<usize> = Vec::new();
    let mut digests: Vec<[u8; 32]> = Vec::new();
    let mut i: usize = 0;
    assert(cs.take(0) =~= Seq::<Seq<u8>>::empty());
    while i < n
        invariant
            n == contents@.len(),
            cs == buffers(contents@),
            i <= n,
            hash ==> forall|k: int| 0 <= k < contents@.len() ==> #[trigger] contents@[k]@.len() <= sha256_max_input(),
            out@ == pro + data_section(cs.take(i as int)),
            sizes@.len() == i,
            digests@.len() == i,
            forall|k: int| 0 <= k < i ==> #[trigger] sizes@[k] == cs[k].len() as usize,
            forall|k: int| 0 <= k < i ==> #[trigger] digests@[k]@ == digest_of(cs[k], hash),
        decreases n - i,
    {
        let (text, digest, size) = write_file(contents[i].as_slice(), hash);
        proof {
            assert(cs[i as int] == contents@[i as int]@);
            assert(cs.take(i + 1).drop_last() =~= cs.take(i as int));
            assert(cs.take(i + 1).last() == cs[i as int]);
        }
        out.push_str(text.as_str());
        sizes.push(size);
        digests.push(digest);
        i = i + 1;
    }
    assert(cs.take(n as int) =~= cs);
    assert(sizes@ =~= sizes_of(cs));
    let lengths = lengths_section(sizes.as_slice());
    out.push_str(lengths.as_str());
    proof {
        lemma_hash_lines_match(digests@, cs, hash);
    }
    let hashes = hashes_section(digests.as_slice(), hash);
    out.push_str(hashes.as_str());
    let opening = names_open();
    out.push_str(opening.as_str());
    let ghost names_head = out@;
    let ghost ex = match exec { Some(e) => Some(e@), None => None };
    assert(names_head == header_head(silent, ex, hash, ps, cs));
    let mut k: usize = 0;
    assert(ps.take(0) =~= Seq::<Seq<char>>::empty());
    while k < paths.len()
        invariant
            ps == texts(paths@),
            cs == buffers(contents@),
            k <= paths@.len(),
            names_part(ps.take(k as int)).1,
            names_head == header_head(silent, ex, hash, ps, cs),
            ex == match exec { Some(e) => Some(e@), None => None },
            out@ == names_head + names_part(ps.take(k as int)).0,
        decreases paths@.len() - k,
    {
        proof {
            assert(ps.take(k + 1).drop_last() =~= ps.take(k as int));
            assert(ps.take(k + 1).last() == ps[k as int]);
            assert(ps[k as int] == paths@[k as int]@);
        }
        match attempt_get_name(paths[k].as_str()) {
            Ok(name) => {
                let line = name_line(name);
                out.push_str(line.as_str());
            },
            Err(e) => {
                proof {
                    lemma_names_part_stops(ps, k as int);
                }
                return (out, Some(e));
            },
        }
        k = k + 1;
    }
    assert(ps.take(paths@.len() as int) =~= ps);
    let closing = names_close();
    out.push_str(closing.as_str());
    (out, None)
}

/// The hash array lines of hashes that are the files' hashes are the files' hash lines.
pub proof fn lemma_hash_lines_match(hs: Seq<[u8; 32]>, cs: Seq<Seq<u8>>, hash: bool)
    requires
        hs.len() == cs.len(),
        forall|k: int| 0 <= k < hs.len() ==> #[trigger] hs[k]@ == digest_of(cs[k], hash),
    ensures
        hash_lines(hs) == digest_lines(cs, hash),
    decreases hs.len(),
{
    if hs.len() > 0 {
        lemma_hash_lines_match(hs.drop_last(), cs.drop_last(), hash);
        assert(hs.last()@ == digest_of(cs.last(), hash));
    }
}

/// Once a path without a file name is met, the names array stays as it was.
pub proof fn lemma_names_part_stops(ps: Seq<Seq<char>>, k: int)
    requires
        0 <= k < ps.len(),
        names_part(ps.take(k)).1,
        path_file_name(ps[k]) is None,
    ensures
        names_part(ps) == (names_part(ps.take(k)).0, false),
    decreases ps.len() - k,
{
    if k == ps.len() - 1 {
        assert(ps.drop_last() =~= ps.take(k));
    } else {
        assert(ps.drop_last().take(k) =~= ps.take(k));
        assert(ps.drop_last()[k] == ps[k]);
        lemma_names_part_stops(ps.drop_last(), k);
    }
}


/// The total of a sequence of sizes.
pub open spec fn size_sum(s: Seq<usize>) -> int
    decreases s.len(),
{
    if s.len() == 0 {
        0
    } else {
        size_sum(s.drop_last()) + s.last()
    }
}

/// Without layout, the data arrays of the files are the items of all their bytes, in order.
pub proof fn lemma_data_section_items(cs: Seq<Seq<u8>>)
    ensures
        strip_layout(data_section(cs)) == items_text(cs.flatten()),
    decreases cs.len(),
{
    if cs.len() == 0 {
        assert(strip_layout(data_section(cs)) =~= Seq::<char>::empty());
        assert(items_text(cs.flatten()) =~= Seq::<char>::empty());
    } else {
        let p = cs.drop_last();
        lemma_data_section_items(p);
        lemma_strip_concat(data_section(p), data_text(cs.last()));
        law_data_text_items(cs.last());
        p.lemma_flatten_push(cs.last());
        assert(p.push(cs.last()) =~= cs);
        lemma_items_concat(p.flatten(), cs.last());
    }
}

/// The sizes that the header records add up to the length of all the files' bytes.
pub proof fn lemma_size_sum(cs: Seq<Seq<u8>>)
    requires
        forall|k: int| 0 <= k < cs.len() ==> #[trigger] cs[k].len() <= usize::MAX,
    ensures
        size_sum(sizes_of(cs)) == cs.flatten().len(),
    decreases cs.len(),
{
    if cs.len() > 0 {
        let p = cs.drop_last();
        assert forall|k: int| 0 <= k < p.len() implies #[trigger] p[k].len() <= usize::MAX by {
            assert(p[k] == cs[k]);
        }
        lemma_size_sum(p);
        assert(sizes_of(cs).drop_last() =~= sizes_of(p));
        p.lemma_flatten_push(cs.last());
        assert(p.push(cs.last()) =~= cs);
    }
}

/// The data array of the header holds the files' bytes in the order of the files:
/// read back without its layout it is all the files' bytes one file after the other,
/// and the part that starts after the sizes the lengths array records for the files
/// before the k-th, and is as long as the k-th recorded size, is the k-th file.
pub proof fn law_data_section_in_file_order(cs: Seq<Seq<u8>>)
    requires
        forall|k: int| 0 <= k < cs.len() ==> #[trigger] cs[k].len() <= usize::MAX,
    ensures
        decode_items(strip_layout(data_section(cs))) == cs.flatten(),
        forall|k: int| 0 <= k < cs.len() ==> #[trigger] decode_items(strip_layout(data_section(cs))).subrange(
            size_sum(sizes_of(cs).take(k)),
            size_sum(sizes_of(cs).take(k + 1)),
        ) == cs[k],
{
    lemma_data_section_items(cs);
    lemma_decode_items(cs.flatten());
    let f = cs.flatten();
    assert forall|k: int| 0 <= k < cs.len() implies #[trigger] decode_items(strip_layout(data_section(cs))).subrange(
        size_sum(sizes_of(cs).take(k)),
        size_sum(sizes_of(cs).take(k + 1)),
    ) == cs[k] by {
        let a = cs.take(k);
        let b = cs.take(k + 1);
        assert forall|j: int| 0 <= j < a.len() implies #[trigger] a[j].len() <= usize::MAX by {
            assert(a[j] == cs[j]);
        }
        assert forall|j: int| 0 <= j < b.len() implies #[trigger] b[j].len() <= usize::MAX by {
            assert(b[j] == cs[j]);
        }
        lemma_size_sum(a);
        lemma_size_sum(b);
        assert(sizes_of(cs).take(k) =~= sizes_of(a));
        assert(sizes_of(cs).take(k + 1) =~= sizes_of(b));
        assert(b =~= a.push(cs[k]));
        a.lemma_flatten_push(cs[k]);
        assert(cs =~= b + cs.skip(k + 1));
        vstd::seq_lib::lemma_flatten_concat(b, cs.skip(k + 1));
        assert(f.subrange(a.flatten().len() as int, b.flatten().len() as int) =~= cs[k]);
    }
}


/// One line of the hash array after its tab: the hash's items and a newline.
pub open spec fn digest_field(d: Seq<u8>, hash: bool) -> Seq<char> {
    hash_text(digest_of(d, hash)).push('\n')
}

/// Cut at its tabs, the hash array's lines are an empty piece, then one piece for each file.
pub proof fn lemma_digest_fields(cs: Seq<Seq<u8>>, hash: bool)
    ensures
        tab_fields(digest_lines(cs, hash)) == seq![Seq::<char>::empty()]
            + Seq::new(cs.len(), |k: int| digest_field(cs[k], hash)),
    decreases cs.len(),
{
    if cs.len() == 0 {
        assert(tab_fields(digest_lines(cs, hash)) =~= seq![Seq::<char>::empty()]);
        assert(seq![Seq::<char>::empty()] + Seq::new(0, |k: int| digest_field(cs[k], hash))
            =~= seq![Seq::<char>::empty()]);
    } else {
        let p = cs.drop_last();
        lemma_digest_fields(p, hash);
        let w = digest_field(cs.last(), hash);
        lemma_hash_text_no_tab(digest_of(cs.last(), hash));
        assert forall|i: int| 0 <= i < w.len() implies #[trigger] w[i] != '\t' by {
            if i < w.len() - 1 {
                assert(w[i] == hash_text(digest_of(cs.last(), hash))[i]);
            }
        }
        let x = digest_lines(p, hash).push('\t');
        assert(digest_lines(cs, hash) =~= x + w);
        lemma_tab_fields_append(x, w);
        assert(x.drop_last() =~= digest_lines(p, hash));
        assert(tab_fields(x) == tab_fields(digest_lines(p, hash)).push(Seq::<char>::empty()));
        assert(Seq::<char>::empty() + w =~= w);
        assert forall|k: int| 0 <= k < p.len() implies #[trigger] p[k] == cs[k] by {}
        assert(tab_fields(digest_lines(cs, hash)) =~= seq![Seq::<char>::empty()]
            + Seq::new(cs.len(), |k: int| digest_field(cs[k], hash)));
    }
}

/// Each line of the hash array reads back as its file's hash: cut at its tabs, the
/// lines are an empty piece and then, for the k-th file, hash items followed by a
/// newline, which read back as the file's SHA-256 digest when the inputs are hashed,
/// and as 32 zero bytes otherwise.
pub proof fn law_digest_lines_roundtrip(cs: Seq<Seq<u8>>, hash: bool)
    ensures
        tab_fields(digest_lines(cs, hash)).len() == cs.len() + 1,
        forall|k: int| 0 <= k < cs.len() ==> {
            let f = #[trigger] tab_fields(digest_lines(cs, hash))[k + 1];
            &&& f.len() >= 1
            &&& f.last() == '\n'
            &&& hash ==> decode_hash_items(f.drop_last()) == sha256_of(cs[k])
            &&& !hash ==> decode_hash_items(f.drop_last()) == Seq::new(32, |i: int| 0u8)
        },
{
    lemma_digest_fields(cs, hash);
    let t = tab_fields(digest_lines(cs, hash));
    assert forall|k: int| 0 <= k < cs.len() implies {
        let f = #[trigger] t[k + 1];
        &&& f.len() >= 1
        &&& f.last() == '\n'
        &&& hash ==> decode_hash_items(f.drop_last()) == sha256_of(cs[k])
        &&& !hash ==> decode_hash_items(f.drop_last()) == Seq::new(32, |i: int| 0u8)
    } by {
        let f = t[k + 1];
        assert(f == digest_field(cs[k], hash));
        assert(f.drop_last() =~= hash_text(digest_of(cs[k], hash)));
        law_hash_text_roundtrip(digest_of(cs[k], hash));
    }
}

/// The header for the files `cs` is its opening, then a data array that reads back as
/// the files' bytes in file order (see [`law_data_section_in_file_order`]), then the
/// lengths array of the files' sizes, then the hash array with one line per file, in
/// file order (see [`law_digest_lines_roundtrip`]), then the names array.
pub proof fn law_header_layout(
    silent: bool,
    exec: Option<Seq<char>>,
    hash: bool,
    ps: Seq<Seq<char>>,
    cs: Seq<Seq<u8>>,
)
    requires
        forall|k: int| 0 <= k < cs.len() ==> #[trigger] cs[k].len() <= usize::MAX,
    ensures
        exists|d: Seq<char>, l: Seq<char>, r: Seq<char>| {
            &&& #[trigger] header_text(silent, exec, hash, ps, cs)
                == prologue_text(silent, ps.len(), exec) + d + "};\n"@
                + "constexpr const long DATA_LENGTHS[DATA_COUNT] = {\n"@ + l + "\n};\n"@ + r
            &&& decode_items(strip_layout(d)) == cs.flatten()
            &&& tab_fields(l).len() == cs.len() + 1
            &&& forall|k: int| 0 <= k < cs.len() ==> decode_items(strip_layout(d)).subrange(
                size_sum(Seq::new(k as nat, |i: int| cs[i].len() as usize)),
                size_sum(Seq::new(k as nat, |i: int| cs[i].len() as usize)) + cs[k].len(),
            ) == #[trigger] cs[k]
        },
{
    law_data_section_in_file_order(cs);
    crate::header::law_lengths_roundtrip(sizes_of(cs));
    let d = data_section(cs);
    let l = lengths_items(sizes_of(cs));
    let r = digests_text(cs, hash) + "constexpr const char* const DATA_NAMES[DATA_COUNT] = {\n"@
        + names_part(ps).0 + (if names_part(ps).1 { "};\n"@ } else { Seq::<char>::empty() });
    assert(header_text(silent, exec, hash, ps, cs)
        =~= prologue_text(silent, ps.len(), exec) + d + "};\n"@
        + "constexpr const long DATA_LENGTHS[DATA_COUNT] = {\n"@ + l + "\n};\n"@ + r);
    assert forall|k: int| 0 <= k < cs.len() implies decode_items(strip_layout(d)).subrange(
        size_sum(Seq::new(k as nat, |i: int| cs[i].len() as usize)),
        size_sum(Seq::new(k as nat, |i: int| cs[i].len() as usize)) + cs[k].len(),
    ) == #[trigger] cs[k] by {
        assert(sizes_of(cs).take(k) =~= Seq::new(k as nat, |i: int| cs[i].len() as usize));
        assert(sizes_of(cs).take(k + 1) =~= sizes_of(cs).take(k).push(cs[k].len() as usize));
        assert(sizes_of(cs).take(k + 1).drop_last() =~= sizes_of(cs).take(k));
        let a = size_sum(sizes_of(cs).take(k));
        assert(sizes_of(cs).take(k + 1).last() == cs[k].len() as usize);
        assert(size_sum(sizes_of(cs).take(k + 1)) == a + cs[k].len());
        assert(decode_items(strip_layout(data_section(cs))).subrange(a, size_sum(sizes_of(cs).take(k + 1))) == cs[k]);
    }
}

} // verus!
