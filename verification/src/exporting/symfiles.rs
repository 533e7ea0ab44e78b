//! Where the symbols of a binary are looked for: the list of candidate
//! files, in the order they are tried, and which of them are kept once
//! each has been checked.

use vstd::prelude::*;

use crate::dotnet::push_str_chars;
use crate::text::string_push;

verus! {

/// The file's own symbol table was found.
pub const SYMBOL_TYPE_ELF_SYMTAB: u32 = 1;

/// The file's dynamic symbol table was found.
pub const SYMBOL_TYPE_ELF_DYNSYM: u32 = 2;

/// A path with a component pushed on it: an absolute component replaces
/// the path, an empty path becomes the component, and otherwise a `/` is
/// put between them unless the path already ends with one.
pub open spec fn join_path(base: Seq<char>, part: Seq<char>) -> Seq<char> {
    if part.len() > 0 && part[0] == '/' {
        part
    } else if base.len() == 0 {
        part
    } else if base.last() == '/' {
        base + part
    } else {
        base + seq!['/'] + part
    }
}

/// The lower-case hexadecimal digit of `d` (0 to 15).
pub open spec fn lower_hex_char(d: int) -> char {
    if d < 10 {
        (('0' as int) + d) as char
    } else {
        (('a' as int) + d - 10) as char
    }
}

/// The two lower-case hexadecimal digits of each byte.
pub open spec fn lower_hex_bytes(b: Seq<u8>) -> Seq<char>
    decreases b.len(),
{
    if b.len() == 0 {
        Seq::empty()
    } else {
        lower_hex_bytes(b.drop_last()) + seq![lower_hex_char((b.last() / 16) as int), lower_hex_char((b.last() % 16) as int)]
    }
}

/// The build-id file of a build id: the first byte's digits name a
/// directory holding `<the other digits>.debug`.
pub open spec fn build_id_path(id: Seq<u8>) -> Seq<char> {
    let hex = lower_hex_bytes(id);
    "/usr/lib/debug/.build-id/"@ + hex.take(2) + seq!['/'] + hex.skip(2) + ".debug"@
}

/// The binary and its `.dbg` and `.debug` files beside it.
pub open spec fn beside_candidates(bin: Seq<char>) -> Seq<Seq<char>> {
    seq![bin, bin + ".dbg"@, bin + ".debug"@]
}

/// With a debug link: the link itself and, with the binary's directory,
/// the link in it and in its `.debug` subdirectory.
pub open spec fn link_candidates(link: Option<Seq<char>>, dir: Option<Seq<char>>) -> Seq<Seq<char>> {
    match link {
        Some(l) => seq![join_path(Seq::empty(), l)] + match dir {
            Some(d) => seq![join_path(d, l), join_path(join_path(d, ".debug"@), l)],
            None => Seq::empty(),
        },
        None => Seq::empty(),
    }
}

/// With a debug link and the binary's directory: the link under the
/// directory's copy in `/usr/lib/debug`.
pub open spec fn debug_tree_link_candidates(link: Option<Seq<char>>, dir: Option<Seq<char>>) -> Seq<Seq<char>> {
    match (link, dir) {
        (Some(l), Some(d)) => seq![join_path(join_path("/usr/lib/debug"@, d.skip(1)), l)],
        _ => Seq::empty(),
    }
}

/// With a build id, its build-id file.
pub open spec fn build_id_candidates(build_id: Option<Seq<u8>>) -> Seq<Seq<char>> {
    match build_id {
        Some(id) => seq![build_id_path(id)],
        None => Seq::empty(),
    }
}

/// The binary under `/usr/lib/debug`, with and without `.debug`, and, for
/// a binary under `/usr/lib/`, under `/usr/lib/debug/lib/`.
pub open spec fn debug_tree_candidates(bin: Seq<char>) -> Seq<Seq<char>> {
    seq![join_path("/usr/lib/debug"@, bin.skip(1) + ".debug"@), join_path("/usr/lib/debug"@, bin.skip(1))] + if bin.len()
        > 9 && bin.take(9) == "/usr/lib/"@ {
        seq![join_path("/usr/lib/debug/lib/"@, bin.skip(9))]
    } else {
        Seq::empty()
    }
}

/// The candidate files for the symbols of the binary at `bin`, in the
/// order they are tried: the binary, `.dbg` and `.debug` beside it; with a
/// debug link, the link itself, the link in the binary's directory `dir`,
/// in its `.debug` subdirectory, and under `/usr/lib/debug`; with a build
/// id, its build-id file; the binary under `/usr/lib/debug`, with and
/// without `.debug`; and, for a binary under `/usr/lib/`, under
/// `/usr/lib/debug/lib/`.
pub open spec fn symbol_candidates(
    bin: Seq<char>,
    link: Option<Seq<char>>,
    dir: Option<Seq<char>>,
    build_id: Option<Seq<u8>>,
) -> Seq<Seq<char>> {
    beside_candidates(bin) + link_candidates(link, dir) + debug_tree_link_candidates(link, dir)
        + build_id_candidates(build_id) + debug_tree_candidates(bin)
}

/// Whether a path can have its first character cut off: it has one, and
/// it is one byte long.
pub open spec fn cuttable(p: Seq<char>) -> bool {
    p.len() > 0 && is_ascii_char(p[0])
}

/// The candidates that can be made, in order: all of them, except that the
/// list stops before the first one that cuts the first character off a
/// path that cannot lose it (the directory under `/usr/lib/debug`, then the
/// binary under it).
pub open spec fn buildable_candidates(
    bin: Seq<char>,
    link: Option<Seq<char>>,
    dir: Option<Seq<char>>,
    build_id: Option<Seq<u8>>,
) -> Seq<Seq<char>> {
    if link is Some && (dir matches Some(d) && !cuttable(d)) {
        beside_candidates(bin) + link_candidates(link, dir)
    } else if !cuttable(bin) {
        beside_candidates(bin) + link_candidates(link, dir) + debug_tree_link_candidates(link, dir)
            + build_id_candidates(build_id)
    } else {
        symbol_candidates(bin, link, dir, build_id)
    }
}

/// The text of an optional string.
pub open spec fn opt_text(s: Option<&str>) -> Option<Seq<char>> {
    match s {
        Some(x) => Some(x@),
        None => None,
    }
}

/// The bytes of an optional build id.
pub open spec fn opt_id(id: Option<&[u8; 20]>) -> Option<Seq<u8>> {
    match id {
        Some(x) => Some(x@),
        None => None,
    }
}

/// Whether a character is ASCII, one byte in UTF-8.
pub open spec fn is_ascii_char(c: char) -> bool {
    (c as u32) < 128
}

/// Pushes a component on a path (see `join_path`).
pub fn push_path(path: &mut String, part: &str)
    ensures
        final(path)@ == join_path(old(path)@, part@),
{
    let n = part.unicode_len();
    if n > 0 && part.get_char(0) == '/' {
        crate::text::string_clear(path);
        push_str_chars(path, part);
        assert(path@ =~= part@);
        return;
    }
    let m = path.unicode_len();
    if m > 0 && path.as_str().get_char(m - 1) != '/' {
        string_push(path, '/');
    }
    push_str_chars(path, part);
}

/// The characters of `s` from the `k`-th on.
fn str_skip(s: &str, k: usize) -> (r: String)
    requires
        k <= s@.len(),
    ensures
        r@ == s@.skip(k as int),
{
    let n = s.unicode_len();
    let mut r = String::new();
    let mut i = k;
    while i < n
        invariant
            n == s@.len(),
            k <= i <= n,
            r@ == s@.subrange(k as int, i as int),
        decreases n - i,
    {
        string_push(&mut r, s.get_char(i));
        assert(s@.subrange(k as int, i + 1) =~= s@.subrange(k as int, i as int).push(s@[i as int]));
        i = i + 1;
    }
    assert(s@.subrange(k as int, n as int) =~= s@.skip(k as int));
    r
}

fn lower_hex_digit(d: u8) -> (c: char)
    requires
        d < 16,
    ensures
        c == lower_hex_char(d as int),
{
    if d < 10 {
        ((48 + d) as u8) as char
    } else {
        ((87 + d) as u8) as char
    }
}

/// The build-id file of a build id (see `build_id_path`).
pub fn build_id_file(id: &[u8; 20]) -> (p: String)
    ensures
        p@ == build_id_path(id@),
{
    let mut hex = String::new();
    let mut i: usize = 0;
    while i < 20
        invariant
            i <= 20,
            id@.len() == 20,
            hex@ == lower_hex_bytes(id@.take(i as int)),
            hex@.len() == 2 * i,
        decreases 20 - i,
    {
        let b = id[i];
        string_push(&mut hex, lower_hex_digit(b / 16));
        string_push(&mut hex, lower_hex_digit(b % 16));
        assert(id@.take(i + 1).drop_last() =~= id@.take(i as int));
        i = i + 1;
    }
    assert(id@.take(20) =~= id@);
    let mut p = String::new();
    push_str_chars(&mut p, "/usr/lib/debug/.build-id/");
    string_push(&mut p, hex.as_str().get_char(0));
    string_push(&mut p, hex.as_str().get_char(1));
    string_push(&mut p, '/');
    let rest = str_skip(hex.as_str(), 2);
    push_str_chars(&mut p, rest.as_str());
    push_str_chars(&mut p, ".debug");
    proof {
        reveal_strlit("/usr/lib/debug/.build-id/");
        assert(hex@.take(2) =~= seq![hex@[0], hex@[1]]);
    }
    assert(p@ =~= build_id_path(id@));
    p
}

/// Whether the nine characters `/usr/lib/` start `s` and more follow.
fn under_usr_lib(s: &str) -> (b: bool)
    ensures
        b == (s@.len() > 9 && s@.take(9) == "/usr/lib/"@),
{
    let prefix = "/usr/lib/";
    proof {
        reveal_strlit("/usr/lib/");
    }
    let n = s.unicode_len();
    if n <= 9 {
        return false;
    }
    let mut i: usize = 0;
    while i < 9
        invariant
            n == s@.len(),
            n > 9,
            i <= 9,
            prefix@ == "/usr/lib/"@,
            prefix@.len() == 9,
            s@.take(i as int) == prefix@.take(i as int),
        decreases 9 - i,
    {
        if s.get_char(i) != prefix.get_char(i) {
            assert(s@.take(9)[i as int] != prefix@[i as int]);
            return false;
        }
        assert(s@.take(i + 1) =~= s@.take(i as int).push(s@[i as int]));
        assert(prefix@.take(i + 1) =~= prefix@.take(i as int).push(prefix@[i as int]));
        i = i + 1;
    }
    assert(prefix@.take(9) =~= prefix@);
    true
}

/// The candidate symbol files of the binary at `bin` that can be made
/// (see `buildable_candidates`), given the binary's directory as the path
/// library gives it.
pub fn symbol_candidates_in(
    bin: &str,
    debug_link: Option<&str>,
    dir: Option<&str>,
    build_id: Option<&[u8; 20]>,
) -> (paths: Vec<String>)
    ensures
        paths@.map_values(|p: String| p@) == buildable_candidates(
            bin@,
            opt_text(debug_link),
            opt_text(dir),
            opt_id(build_id),
        ),
{
    let ghost link_v = opt_text(debug_link);
    let ghost dir_v = opt_text(dir);
    let ghost id_v = opt_id(build_id);
    proof {
        reveal_strlit("/usr/lib/debug");
    }
    let mut paths: Vec<String> = Vec::new();
    let mut p = String::new();
    push_str_chars(&mut p, bin);
    paths.push(p);
    let mut p = String::new();
    push_str_chars(&mut p, bin);
    push_str_chars(&mut p, ".dbg");
    paths.push(p);
    let mut p = String::new();
    push_str_chars(&mut p, bin);
    push_str_chars(&mut p, ".debug");
    paths.push(p);
    assert(paths@.map_values(|p: String| p@) =~= beside_candidates(bin@));
    let ghost mut want = beside_candidates(bin@);
    match debug_link {
        Some(link) => {
            let mut p = String::new();
            push_path(&mut p, link);
            paths.push(p);
            proof {
                want = want.push(join_path(Seq::empty(), link@));
            }
            match dir {
                Some(d) => {
                    let mut p = String::new();
                    push_path(&mut p, d);
                    push_path(&mut p, link);
                    paths.push(p);
                    let mut p = String::new();
                    push_path(&mut p, d);
                    push_path(&mut p, ".debug");
                    push_path(&mut p, link);
                    paths.push(p);
                    proof {
                        assert(join_path(Seq::empty(), d@) == d@);
                        want = want + seq![join_path(d@, link@), join_path(join_path(d@, ".debug"@), link@)];
                    }
                    assert(want =~= beside_candidates(bin@) + link_candidates(link_v, dir_v));
                    if d.unicode_len() == 0 || !((d.get_char(0) as u32) < 128) {
                        assert(paths@.map_values(|p: String| p@) =~= want);
                        return paths;
                    }
                    let mut p = String::new();
                    push_path(&mut p, "/usr/lib/debug");
                    let rest = str_skip(d, 1);
                    push_path(&mut p, rest.as_str());
                    push_path(&mut p, link);
                    paths.push(p);
                    proof {
                        assert(join_path(Seq::empty(), "/usr/lib/debug"@) == "/usr/lib/debug"@);
                        want = want.push(join_path(join_path("/usr/lib/debug"@, d@.skip(1)), link@));
                    }
                },
                None => {},
            }
        },
        None => {},
    }
    assert(want =~= beside_candidates(bin@) + link_candidates(link_v, dir_v) + debug_tree_link_candidates(
        link_v,
        dir_v,
    ));
    assert(paths@.map_values(|p: String| p@) =~= want);
    match build_id {
        Some(id) => {
            paths.push(build_id_file(id));
            proof {
                want = want.push(build_id_path(id@));
            }
        },
        None => {},
    }
    assert(want =~= beside_candidates(bin@) + link_candidates(link_v, dir_v) + debug_tree_link_candidates(
        link_v,
        dir_v,
    ) + build_id_candidates(id_v));
    assert(paths@.map_values(|p: String| p@) =~= want);
    if bin.unicode_len() == 0 || !((bin.get_char(0) as u32) < 128) {
        return paths;
    }
    let tail = str_skip(bin, 1);
    let mut p = String::new();
    push_str_chars(&mut p, "/usr/lib/debug");
    let mut part = String::new();
    push_str_chars(&mut part, tail.as_str());
    push_str_chars(&mut part, ".debug");
    push_path(&mut p, part.as_str());
    paths.push(p);
    let mut p = String::new();
    push_str_chars(&mut p, "/usr/lib/debug");
    push_path(&mut p, tail.as_str());
    paths.push(p);
    proof {
        want = want + seq![
            join_path("/usr/lib/debug"@, bin@.skip(1) + ".debug"@),
            join_path("/usr/lib/debug"@, bin@.skip(1)),
        ];
    }
    assert(paths@.map_values(|p: String| p@) =~= want);
    if under_usr_lib(bin) {
        let mut p = String::new();
        push_str_chars(&mut p, "/usr/lib/debug/lib/");
        let rest = str_skip(bin, 9);
        push_path(&mut p, rest.as_str());
        paths.push(p);
        proof {
            want = want.push(join_path("/usr/lib/debug/lib/"@, bin@.skip(9)));
        }
    }
    assert(paths@.map_values(|p: String| p@) =~= want);
    assert(want =~= symbol_candidates(bin@, link_v, dir_v, id_v));
    paths
}

/// Which of the checked candidates are kept: going in order, each that
/// matched (`Some` of the symbol kinds it holds) is kept, until the kinds
/// found so far are exactly those requested. Gives the kept positions and
/// the kinds found.
pub open spec fn select_spec(found: Seq<Option<u32>>, requested: u32, n: int) -> (Seq<int>, u32, bool)
    decreases n,
{
    if n <= 0 {
        (Seq::empty(), 0, false)
    } else {
        let prev = select_spec(found, requested, n - 1);
        if prev.2 {
            prev
        } else {
            match found[n - 1] {
                Some(t) => {
                    let kinds = prev.1 | t;
                    (prev.0.push(n - 1), kinds, kinds == requested)
                },
                None => prev,
            }
        }
    }
}

/// The positions of the candidates kept (see `select_spec`): each that
/// matched, in order, until every requested symbol kind is found.
pub fn select_symbol_files(found: &[Option<u32>], requested: u32) -> (kept: Vec<usize>)
    ensures
        kept@.map_values(|i: usize| i as int) == select_spec(found@, requested, found@.len() as int).0,
{
    let mut kept: Vec<usize> = Vec::new();
    let mut kinds: u32 = 0;
    let mut i: usize = 0;
    while i < found.len()
        invariant
            i <= found@.len(),
            ({
                let s = select_spec(found@, requested, i as int);
                &&& kept@.map_values(|k: usize| k as int) == s.0
                &&& kinds == s.1
                &&& !s.2
            }),
        decreases found@.len() - i,
    {
        match found[i] {
            Some(t) => {
                kept.push(i);
                kinds = kinds | t;
                assert(kept@.map_values(|k: usize| k as int) =~= select_spec(found@, requested, i as int).0.push(
                    i as int,
                ));
                if kinds == requested {
                    proof {
                        lemma_select_done(found@, requested, i + 1, found@.len() as int);
                    }
                    return kept;
                }
            },
            None => {},
        }
        i = i + 1;
    }
    kept
}

/// Whether the search is over once these candidates are checked: every
/// requested symbol kind was found among them (see `select_spec`).
pub fn symbol_search_done(found: &[Option<u32>], requested: u32) -> (done: bool)
    ensures
        done == select_spec(found@, requested, found@.len() as int).2,
{
    let mut kinds: u32 = 0;
    let mut i: usize = 0;
    while i < found.len()
        invariant
            i <= found@.len(),
            kinds == select_spec(found@, requested, i as int).1,
            !select_spec(found@, requested, i as int).2,
        decreases found@.len() - i,
    {
        match found[i] {
            Some(t) => {
                kinds = kinds | t;
                if kinds == requested {
                    proof {
                        lemma_select_done(found@, requested, i + 1, found@.len() as int);
                    }
                    return true;
                }
            },
            None => {},
        }
        i = i + 1;
    }
    false
}

/// Once every requested kind is found, no later candidate is kept.
proof fn lemma_select_done(found: Seq<Option<u32>>, requested: u32, n: int, m: int)
    requires
        0 < n <= m,
        select_spec(found, requested, n).2,
    ensures
        select_spec(found, requested, m) == select_spec(found, requested, n),
    decreases m - n,
{
    if m > n {
        lemma_select_done(found, requested, n, m - 1);
    }
}

/// The parent directory of a path, as text, as `Path::parent` gives it.
pub uninterp spec fn parent_of(path: Seq<char>) -> Option<Seq<char>>;

/// The text of an optional string.
pub open spec fn opt_string_text(s: Option<String>) -> Option<Seq<char>> {
    match s {
        Some(x) => Some(x@),
        None => None,
    }
}

/// Calls `Path::parent` on the binary's path and gives the directory as
/// text. Trusted: the directory is a function of the path alone, named
/// `parent_of`; as documented, an empty path has none.
#[verifier::external_body]
fn path_parent(path: &str) -> (dir: Option<String>)
    ensures
        opt_string_text(dir) == parent_of(path@),
        path@.len() == 0 ==> dir is None,
{
    std::path::Path::new(path).parent().map(|d| d.to_string_lossy().into_owned())
}

/// The candidate symbol files of the binary at `bin` that can be made
/// (see `buildable_candidates`), with the binary's directory from the path
/// library.
pub fn symbol_file_candidates(bin: &str, debug_link: Option<&str>, build_id: Option<&[u8; 20]>) -> (paths:
    Vec<String>)
    ensures
        paths@.map_values(|p: String| p@) == buildable_candidates(
            bin@,
            opt_text(debug_link),
            parent_of(bin@),
            opt_id(build_id),
        ),
{
    let dir = path_parent(bin);
    let dir_str: Option<&str> = match &dir {
        Some(d) => Some(d.as_str()),
        None => None,
    };
    assert(opt_text(dir_str) == parent_of(bin@));
    symbol_candidates_in(bin, debug_link, dir_str, build_id)
}

} // verus!
