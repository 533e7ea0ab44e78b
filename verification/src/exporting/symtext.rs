//! Symbol lists kept as text: the kernel's `/proc/kallsyms` and the perf
//! maps that JIT compilers write (`/tmp/perf-<pid>.map`). Each is read line
//! by line, up to the first line that is not UTF-8, into symbols with a
//! start, an end and a name.

use vstd::prelude::*;

use super::symbols::SymbolEntry;
use crate::guid::{parse_hex_chars, parse_hex_u128};
use crate::intern::str_from_utf8;
use crate::text::string_push;
use vstd::std_specs::iter::IteratorSpec;

verus! {

/// Whether a character is white space, as `char::is_whitespace` says.
pub open spec fn is_ws(c: char) -> bool {
    ||| '\t' <= c <= '\r'
    ||| c == ' '
    ||| c == '\u{85}'
    ||| c == '\u{a0}'
    ||| c == '\u{1680}'
    ||| '\u{2000}' <= c <= '\u{200a}'
    ||| c == '\u{2028}'
    ||| c == '\u{2029}'
    ||| c == '\u{202f}'
    ||| c == '\u{205f}'
    ||| c == '\u{3000}'
}

fn is_ws_char(c: char) -> (b: bool)
    ensures
        b == is_ws(c),
{
    ('\t' <= c && c <= '\r') || c == ' ' || c == '\u{85}' || c == '\u{a0}' || c == '\u{1680}' || ('\u{2000}'
        <= c && c <= '\u{200a}') || c == '\u{2028}' || c == '\u{2029}' || c == '\u{202f}' || c == '\u{205f}'
        || c == '\u{3000}'
}

/// The first index at or after `i` that is not white space (or the end).
pub open spec fn skip_ws(s: Seq<char>, i: int) -> int
    decreases s.len() - i,
{
    if 0 <= i < s.len() && is_ws(s[i]) {
        skip_ws(s, i + 1)
    } else {
        i
    }
}

/// The first index at or after `i` that is white space (or the end).
pub open spec fn tok_end(s: Seq<char>, i: int) -> int
    decreases s.len() - i,
{
    if 0 <= i < s.len() && !is_ws(s[i]) {
        tok_end(s, i + 1)
    } else {
        i
    }
}

pub proof fn lemma_skip_ws(s: Seq<char>, i: int)
    requires
        0 <= i <= s.len(),
    ensures
        i <= skip_ws(s, i) <= s.len(),
        skip_ws(s, i) < s.len() ==> !is_ws(s[skip_ws(s, i)]),
    decreases s.len() - i,
{
    if i < s.len() && is_ws(s[i]) {
        lemma_skip_ws(s, i + 1);
    }
}

pub proof fn lemma_tok_end(s: Seq<char>, i: int)
    requires
        0 <= i <= s.len(),
    ensures
        i <= tok_end(s, i) <= s.len(),
        i < s.len() && !is_ws(s[i]) ==> i < tok_end(s, i),
    decreases s.len() - i,
{
    if i < s.len() && !is_ws(s[i]) {
        lemma_tok_end(s, i + 1);
    }
}

/// The white-space separated words of `s` from index `i` on, as
/// `str::split_whitespace` gives them.
pub open spec fn words_from(s: Seq<char>, i: int) -> Seq<Seq<char>>
    decreases s.len() - i,
{
    if 0 <= i <= s.len() {
        let j = skip_ws(s, i);
        if j >= s.len() {
            Seq::empty()
        } else {
            let k = tok_end(s, j);
            proof {
                lemma_skip_ws(s, i);
                lemma_tok_end(s, j);
            }
            seq![s.subrange(j, k)] + words_from(s, k)
        }
    } else {
        Seq::empty()
    }
}

/// The words of a line (see `words_from`).
fn line_words(line: &Vec<char>) -> (words: Vec<Vec<char>>)
    ensures
        words@.map_values(|w: Vec<char>| w@) == words_from(line@, 0),
{
    let n = line.len();
    let ghost s = line@;
    let mut words: Vec<Vec<char>> = Vec::new();
    let mut i: usize = 0;
    assert(words@.map_values(|w: Vec<char>| w@) + words_from(s, 0) =~= words_from(s, 0));
    loop
        invariant
            n == s.len(),
            s == line@,
            i <= n,
            words@.map_values(|w: Vec<char>| w@) + words_from(s, i as int) == words_from(s, 0),
        decreases n - i,
    {
        let mut j = i;
        while j < n && is_ws_char(line[j])
            invariant
                i <= j <= n,
                n == s.len(),
                s == line@,
                skip_ws(s, j as int) == skip_ws(s, i as int),
            decreases n - j,
        {
            j = j + 1;
        }
        proof {
            lemma_skip_ws(s, i as int);
        }
        if j >= n {
            assert(words_from(s, i as int) =~= Seq::<Seq<char>>::empty());
            assert(words@.map_values(|w: Vec<char>| w@) =~= words_from(s, 0));
            return words;
        }
        let mut k = j;
        let mut word: Vec<char> = Vec::new();
        while k < n && !is_ws_char(line[k])
            invariant
                j <= k <= n,
                n == s.len(),
                s == line@,
                tok_end(s, k as int) == tok_end(s, j as int),
                word@ == s.subrange(j as int, k as int),
            decreases n - k,
        {
            word.push(line[k]);
            assert(s.subrange(j as int, k + 1) =~= s.subrange(j as int, k as int).push(s[k as int]));
            k = k + 1;
        }
        proof {
            lemma_tok_end(s, j as int);
        }
        let ghost before = words@.map_values(|w: Vec<char>| w@);
        words.push(word);
        assert(words@.map_values(|w: Vec<char>| w@) =~= before.push(s.subrange(j as int, k as int)));
        assert(words_from(s, i as int) == seq![s.subrange(j as int, k as int)] + words_from(s, k as int));
        assert(before.push(s.subrange(j as int, k as int)) + words_from(s, k as int) =~= before + words_from(
            s,
            i as int,
        ));
        i = k;
    }
}

/// The index just past the end of the line starting at `i`: past its
/// newline, or the end of the text.
pub open spec fn line_end(t: Seq<char>, i: int) -> int
    decreases t.len() - i,
{
    if 0 <= i < t.len() {
        if t[i] == '\n' {
            i + 1
        } else {
            line_end(t, i + 1)
        }
    } else {
        i
    }
}

pub proof fn lemma_line_end(t: Seq<char>, i: int)
    requires
        0 <= i < t.len(),
    ensures
        i < line_end(t, i) <= t.len(),
    decreases t.len() - i,
{
    if t[i] != '\n' {
        if i + 1 < t.len() {
            lemma_line_end(t, i + 1);
        } else {
            assert(line_end(t, i + 1) == i + 1);
        }
    }
}

/// The lines of a text from index `i` on, each with its newline, as
/// `BufRead::read_line` gives them.
pub open spec fn text_lines(t: Seq<char>, i: int) -> Seq<Seq<char>>
    decreases t.len() - i,
{
    if 0 <= i < t.len() {
        let e = line_end(t, i);
        proof {
            lemma_line_end(t, i);
        }
        seq![t.subrange(i, e)] + text_lines(t, e)
    } else {
        Seq::empty()
    }
}

/// The characters of a text, in order.
fn text_chars(text: &str) -> (cs: Vec<char>)
    ensures
        cs@ == text@,
{
    let n = text.unicode_len();
    let mut cs: Vec<char> = Vec::new();
    let mut chars = text.chars();
    proof {
        vstd::string::axiom_spec_iter(text);
    }
    let mut i: usize = 0;
    while i < n
        invariant
            n == text@.len(),
            i <= n,
            cs@ == text@.take(i as int),
            chars.remaining() == text@.skip(i as int),
            chars.obeys_prophetic_iter_laws(),
        decreases n - i,
    {
        let ghost before = chars;
        let c = chars.next();
        proof {
            vstd::string::next_postcondition(&before, &chars, c);
        }
        match c {
            Some(c) => {
                cs.push(c);
            },
            None => {},
        }
        assert(text@.take(i + 1) =~= text@.take(i as int).push(text@[i as int]));
        assert(text@.skip(i as int).drop_first() =~= text@.skip(i + 1));
        i = i + 1;
    }
    assert(text@.take(n as int) =~= text@);
    cs
}

/// The lines of a text (see `text_lines`).
fn lines_of(t: &Vec<char>) -> (lines: Vec<Vec<char>>)
    ensures
        lines@.map_values(|l: Vec<char>| l@) == text_lines(t@, 0),
{
    let n = t.len();
    let mut lines: Vec<Vec<char>> = Vec::new();
    let mut i: usize = 0;
    assert(lines@.map_values(|l: Vec<char>| l@) + text_lines(t@, 0) =~= text_lines(t@, 0));
    while i < n
        invariant
            n == t@.len(),
            i <= n,
            lines@.map_values(|l: Vec<char>| l@) + text_lines(t@, i as int) == text_lines(t@, 0),
        decreases n - i,
    {
        let mut e = i;
        let mut line: Vec<char> = Vec::new();
        let mut done = false;
        while !done && e < n
            invariant
                i <= e <= n,
                n == t@.len(),
                !done ==> line_end(t@, e as int) == line_end(t@, i as int),
                done ==> e == line_end(t@, i as int) && e > i,
                line@ == t@.subrange(i as int, e as int),
            decreases n - e, (if done { 0int } else { 1int }),
        {
            let c = t[e];
            line.push(c);
            assert(t@.subrange(i as int, e + 1) =~= t@.subrange(i as int, e as int).push(c));
            e = e + 1;
            if c == '\n' {
                done = true;
            }
        }
        proof {
            lemma_line_end(t@, i as int);
        }
        let ghost before = lines@.map_values(|l: Vec<char>| l@);
        lines.push(line);
        assert(lines@.map_values(|l: Vec<char>| l@) =~= before.push(t@.subrange(i as int, e as int)));
        assert(text_lines(t@, i as int) == seq![t@.subrange(i as int, e as int)] + text_lines(t@, e as int));
        assert(before.push(t@.subrange(i as int, e as int)) + text_lines(t@, e as int) =~= before + text_lines(
            t@,
            i as int,
        ));
        i = e;
    }
    assert(text_lines(t@, n as int) =~= Seq::<Seq<char>>::empty());
    assert(lines@.map_values(|l: Vec<char>| l@) =~= text_lines(t@, 0));
    lines
}

/// The index just past the end of the byte line starting at `i`: past its
/// newline byte, or the end of the bytes.
pub open spec fn byte_line_end(t: Seq<u8>, i: int) -> int
    decreases t.len() - i,
{
    if 0 <= i < t.len() {
        if t[i] == 10u8 {
            i + 1
        } else {
            byte_line_end(t, i + 1)
        }
    } else {
        i
    }
}

pub proof fn lemma_byte_line_end(t: Seq<u8>, i: int)
    requires
        0 <= i < t.len(),
    ensures
        i < byte_line_end(t, i) <= t.len(),
    decreases t.len() - i,
{
    if t[i] != 10u8 {
        if i + 1 < t.len() {
            lemma_byte_line_end(t, i + 1);
        } else {
            assert(byte_line_end(t, i + 1) == i + 1);
        }
    }
}

/// The text that reading bytes line by line from index `i` gives, as
/// `BufRead::read_line` reads them: each line decoded, up to the first line
/// that is not valid UTF-8, where reading stops.
pub open spec fn utf8_text(t: Seq<u8>, i: int) -> Seq<char>
    decreases t.len() - i,
{
    if 0 <= i < t.len() {
        let e = byte_line_end(t, i);
        proof {
            lemma_byte_line_end(t, i);
        }
        if vstd::utf8::valid_utf8(t.subrange(i, e)) {
            vstd::utf8::decode_utf8(t.subrange(i, e)) + utf8_text(t, e)
        } else {
            Seq::empty()
        }
    } else {
        Seq::empty()
    }
}

/// The characters that reading `text` line by line gives (see `utf8_text`).
fn utf8_line_chars(text: &[u8]) -> (cs: Vec<char>)
    ensures
        cs@ == utf8_text(text@, 0),
{
    let n = text.len();
    let mut cs: Vec<char> = Vec::new();
    let mut i: usize = 0;
    assert(cs@ + utf8_text(text@, 0) =~= utf8_text(text@, 0));
    while i < n
        invariant
            n == text@.len(),
            i <= n,
            cs@ + utf8_text(text@, i as int) == utf8_text(text@, 0),
        decreases n - i,
    {
        let mut e = i;
        let mut done = false;
        while !done && e < n
            invariant
                i <= e <= n,
                n == text@.len(),
                !done ==> byte_line_end(text@, e as int) == byte_line_end(text@, i as int),
                done ==> e == byte_line_end(text@, i as int) && e > i,
            decreases n - e, (if done { 0int } else { 1int }),
        {
            let b = text[e];
            e = e + 1;
            if b == 10u8 {
                done = true;
            }
        }
        proof {
            lemma_byte_line_end(text@, i as int);
        }
        let line = vstd::slice::slice_subrange(text, i, e);
        match str_from_utf8(line) {
            None => {
                assert(utf8_text(text@, i as int) =~= Seq::<char>::empty());
                assert(cs@ + Seq::<char>::empty() =~= cs@);
                return cs;
            },
            Some(s) => {
                proof {
                    vstd::utf8::encode_utf8_decode_utf8(s@);
                }
                assert(s@ == vstd::utf8::decode_utf8(text@.subrange(i as int, e as int)));
                let mut part = text_chars(s);
                let ghost before = cs@;
                cs.append(&mut part);
                assert(cs@ + utf8_text(text@, e as int) =~= before + utf8_text(text@, i as int));
            },
        }
        i = e;
    }
    assert(utf8_text(text@, n as int) =~= Seq::<char>::empty());
    assert(cs@ + Seq::<char>::empty() =~= cs@);
    cs
}

/// `u64::from_str_radix(s, 16)`: an optional `+`, then at least one
/// hexadecimal digit, with a value that fits in 64 bits.
pub open spec fn parse_hex_u64(s: Seq<char>) -> Option<u64> {
    match parse_hex_u128(s) {
        Some(v) => if v <= u64::MAX {
            Some(v as u64)
        } else {
            None
        },
        None => None,
    }
}

fn hex_u64(s: &Vec<char>) -> (r: Option<u64>)
    ensures
        r == parse_hex_u64(s@),
{
    match parse_hex_chars(s) {
        Some(v) => if v <= u64::MAX as u128 {
            Some(v as u64)
        } else {
            None
        },
        None => None,
    }
}

/// A line of `/proc/kallsyms` read as its address, whether it is a text
/// (code) symbol, and its name: the first word is the address in
/// hexadecimal (0 when the line has no word), the second the symbol type
/// (text symbols have `t` or `T`), the third the name, and the fourth, when
/// there is one, the module, which goes in front of the name with a space.
/// `None` when the address is not hexadecimal.
pub open spec fn kallsyms_line(line: Seq<char>) -> Option<(u64, bool, Seq<char>)> {
    let w = words_from(line, 0);
    let addr = if w.len() > 0 {
        parse_hex_u64(w[0])
    } else {
        Some(0u64)
    };
    match addr {
        None => None,
        Some(a) => Some(
            (
                a,
                w.len() > 1 && w[1].len() > 0 && (w[1][0] == 't' || w[1][0] == 'T'),
                (if w.len() > 3 {
                    w[3] + seq![' ']
                } else {
                    Seq::empty()
                }) + (if w.len() > 2 {
                    w[2]
                } else {
                    Seq::empty()
                }),
            ),
        ),
    }
}

/// The lines of a kallsyms text, each read (see `kallsyms_line`).
pub open spec fn kallsyms_read(t: Seq<char>) -> Seq<(u64, bool, Seq<char>)> {
    text_lines(t, 0).map_values(|l: Seq<char>| kallsyms_line(l)->0)
}

/// Whether text symbol `k` of the read lines has an end to compute that
/// would fall below zero: it is not at address 0 and the next line is.
pub open spec fn kallsyms_end_underflows(p: Seq<(u64, bool, Seq<char>)>, k: int) -> bool {
    0 <= k && k + 1 < p.len() && p[k].1 && p[k].0 != 0 && p[k + 1].0 == 0
}

/// Whether a kallsyms text can be read: every line's address is
/// hexadecimal, and no symbol's end falls below zero.
pub open spec fn kallsyms_parses(t: Seq<char>) -> bool {
    &&& forall|i: int| 0 <= i < text_lines(t, 0).len() ==> #[trigger] kallsyms_line(text_lines(t, 0)[i]) is Some
    &&& !(exists|k: int| #[trigger] kallsyms_end_underflows(kallsyms_read(t), k))
}

/// The end of the text symbol on read line `k`: one before the address of
/// the line after it, or the highest address when it is the last line or
/// is at address 0.
pub open spec fn kallsyms_end(p: Seq<(u64, bool, Seq<char>)>, k: int) -> u64 {
    if p[k].0 != 0 && k + 1 < p.len() {
        (p[k + 1].0 - 1) as u64
    } else {
        u64::MAX
    }
}

/// The text symbols of the first `n` read lines, in order: start, end
/// and name.
pub open spec fn kallsyms_symbols_upto(p: Seq<(u64, bool, Seq<char>)>, n: int) -> Seq<(u64, u64, Seq<char>)>
    decreases n,
{
    if n <= 0 {
        Seq::empty()
    } else if p[n - 1].1 {
        kallsyms_symbols_upto(p, n - 1).push((p[n - 1].0, kallsyms_end(p, n - 1), p[n - 1].2))
    } else {
        kallsyms_symbols_upto(p, n - 1)
    }
}

/// The text symbols of a kallsyms text, in order.
pub open spec fn spec_kallsyms(t: Seq<char>) -> Seq<(u64, u64, Seq<char>)> {
    kallsyms_symbols_upto(kallsyms_read(t), kallsyms_read(t).len() as int)
}

/// The views of symbol entries.
pub open spec fn entry_views(v: Seq<SymbolEntry>) -> Seq<(u64, u64, Seq<char>)> {
    v.map_values(|e: SymbolEntry| (e.spec_start(), e.spec_end(), e.spec_name()))
}

fn chars_string(cs: &Vec<char>) -> (s: String)
    ensures
        s@ == cs@,
{
    let mut s = String::new();
    let mut i: usize = 0;
    while i < cs.len()
        invariant
            i <= cs@.len(),
            s@ == cs@.take(i as int),
        decreases cs@.len() - i,
    {
        string_push(&mut s, cs[i]);
        assert(cs@.take(i + 1) =~= cs@.take(i as int).push(cs@[i as int]));
        i = i + 1;
    }
    assert(cs@.take(i as int) =~= cs@);
    s
}

fn read_kallsyms_line(line: &Vec<char>) -> (r: Option<(u64, bool, Vec<char>)>)
    ensures
        match kallsyms_line(line@) {
            None => r is None,
            Some(p) => r matches Some(x) && x.0 == p.0 && x.1 == p.1 && x.2@ == p.2,
        },
{
    let words = line_words(line);
    let ghost w = words_from(line@, 0);
    assert(forall|i: int| 0 <= i < words@.len() ==> #[trigger] words@[i]@ == w[i]);
    let addr = if words.len() > 0 {
        match hex_u64(&words[0]) {
            Some(a) => a,
            None => {
                return None;
            },
        }
    } else {
        0
    };
    let text = words.len() > 1 && words[1].len() > 0 && (words[1][0] == 't' || words[1][0] == 'T');
    let mut name: Vec<char> = Vec::new();
    if words.len() > 3 {
        let mut i: usize = 0;
        while i < words[3].len()
            invariant
                words@.len() > 3,
                i <= words@[3]@.len(),
                name@ == words@[3]@.take(i as int),
            decreases words@[3]@.len() - i,
        {
            name.push(words[3][i]);
            assert(words@[3]@.take(i + 1) =~= words@[3]@.take(i as int).push(words@[3]@[i as int]));
            i = i + 1;
        }
        assert(words@[3]@.take(i as int) =~= words@[3]@);
        name.push(' ');
    }
    let ghost head = name@;
    if words.len() > 2 {
        let mut i: usize = 0;
        while i < words[2].len()
            invariant
                words@.len() > 2,
                i <= words@[2]@.len(),
                name@ == head + words@[2]@.take(i as int),
            decreases words@[2]@.len() - i,
        {
            name.push(words[2][i]);
            assert(words@[2]@.take(i + 1) =~= words@[2]@.take(i as int).push(words@[2]@[i as int]));
            i = i + 1;
        }
        assert(words@[2]@.take(i as int) =~= words@[2]@);
    }
    proof {
        let want = (if w.len() > 3 {
            w[3] + seq![' ']
        } else {
            Seq::empty()
        }) + (if w.len() > 2 {
            w[2]
        } else {
            Seq::empty()
        });
        assert(name@ =~= want);
    }
    Some((addr, text, name))
}

/// The text symbols of the kallsyms listing in `text`, read line by line
/// (see `utf8_text`): those of `spec_kallsyms`, or `None` when the listing
/// cannot be read (see `kallsyms_parses`).
pub fn kallsyms_symbols(text: &[u8]) -> (r: Option<Vec<SymbolEntry>>)
    ensures
        r matches Some(v) ==> entry_views(v@) == spec_kallsyms(utf8_text(text@, 0)),
        r is None <==> !kallsyms_parses(utf8_text(text@, 0)),
{
    let cs = utf8_line_chars(text);
    kallsyms_of_chars(&cs)
}

fn kallsyms_of_chars(cs: &Vec<char>) -> (r: Option<Vec<SymbolEntry>>)
    ensures
        r matches Some(v) ==> entry_views(v@) == spec_kallsyms(cs@),
        r is None <==> !kallsyms_parses(cs@),
{
    let ghost text = cs@;
    let lines = lines_of(cs);
    let ghost ls = text_lines(text, 0);
    assert(forall|i: int| 0 <= i < lines@.len() ==> #[trigger] lines@[i]@ == ls[i]);
    let mut read: Vec<(u64, bool, Vec<char>)> = Vec::new();
    let mut i: usize = 0;
    while i < lines.len()
        invariant
            i <= lines@.len(),
            lines@.len() == ls.len(),
            ls == text_lines(text, 0),
            text == cs@,
            forall|j: int| 0 <= j < lines@.len() ==> #[trigger] lines@[j]@ == ls[j],
            read@.len() == i,
            forall|j: int| 0 <= j < i ==> #[trigger] kallsyms_line(ls[j]) is Some,
            forall|j: int| 0 <= j < i ==> (#[trigger] read@[j]).0 == (kallsyms_line(ls[j])->0).0 && read@[j].1
                == (kallsyms_line(ls[j])->0).1 && read@[j].2@ == (kallsyms_line(ls[j])->0).2,
        decreases lines@.len() - i,
    {
        match read_kallsyms_line(&lines[i]) {
            Some(p) => {
                read.push(p);
            },
            None => {
                assert(kallsyms_line(ls[i as int]) is None);
                return None;
            },
        }
        i = i + 1;
    }
    let ghost p = kallsyms_read(text);
    assert(p.len() == read@.len());
    assert forall|j: int| 0 <= j < read@.len() implies (#[trigger] read@[j]).0 == p[j].0 && read@[j].1 == p[j].1
        && read@[j].2@ == p[j].2 by {}
    let n = read.len();
    let mut out: Vec<SymbolEntry> = Vec::new();
    let mut k: usize = 0;
    while k < n
        invariant
            n == read@.len(),
            n == p.len(),
            p == kallsyms_read(text),
            text == cs@,
            k <= n,
            forall|j: int| 0 <= j < n ==> (#[trigger] read@[j]).0 == p[j].0 && read@[j].1 == p[j].1
                && read@[j].2@ == p[j].2,
            entry_views(out@) == kallsyms_symbols_upto(p, k as int),
            forall|j: int| 0 <= j < k ==> !#[trigger] kallsyms_end_underflows(p, j),
        decreases n - k,
    {
        if read[k].1 {
            let end = if read[k].0 != 0 && k + 1 < n {
                if read[k + 1].0 == 0 {
                    assert(kallsyms_end_underflows(p, k as int));
                    return None;
                }
                read[k + 1].0 - 1
            } else {
                u64::MAX
            };
            let name = chars_string(&read[k].2);
            let ghost before = out@;
            out.push(SymbolEntry::new(read[k].0, end, name));
            assert(entry_views(out@) =~= entry_views(before).push((p[k as int].0, kallsyms_end(p, k as int), p[k as int].2)));
        }
        assert(!kallsyms_end_underflows(p, k as int));
        k = k + 1;
    }
    proof {
        assert forall|j: int| #[trigger] kallsyms_end_underflows(p, j) implies false by {
            assert(0 <= j < n);
        }
    }
    Some(out)
}

/// The first index at or after `i` that holds `c` (or the end).
pub open spec fn find_char(s: Seq<char>, i: int, c: char) -> int
    decreases s.len() - i,
{
    if 0 <= i < s.len() && s[i] != c {
        find_char(s, i + 1, c)
    } else {
        i
    }
}

pub proof fn lemma_find_char(s: Seq<char>, i: int, c: char)
    requires
        0 <= i <= s.len(),
    ensures
        i <= find_char(s, i, c) <= s.len(),
        find_char(s, i, c) < s.len() ==> s[find_char(s, i, c)] == c,
        forall|j: int| i <= j < find_char(s, i, c) ==> s[j] != c,
    decreases s.len() - i,
{
    if i < s.len() && s[i] != c {
        lemma_find_char(s, i + 1, c);
    }
}

/// The name in the third part of a perf map line: up to its first NUL,
/// without a final newline.
pub open spec fn perf_map_name(p: Seq<char>) -> Seq<char> {
    let u = p.take(find_char(p, 0, '\0'));
    if u.len() > 0 && u.last() == '\n' {
        u.drop_last()
    } else {
        u
    }
}

/// The start address in the first part of a perf map line: hexadecimal,
/// after `0x` or `0X` when it starts so.
pub open spec fn perf_map_start(p: Seq<char>) -> Option<u64> {
    if p.len() >= 2 && p[0] == '0' && (p[1] == 'x' || p[1] == 'X') {
        parse_hex_u64(p.skip(2))
    } else {
        parse_hex_u64(p)
    }
}

/// A line of a perf map read as a symbol: split at its first two spaces
/// into the start address, the size (both hexadecimal) and the name; the
/// end is the start plus the size. A line without a space gives only the
/// start, with end 0 and no name; one without a second space gives no
/// name. `None` when a number is not hexadecimal or the end passes the
/// highest address.
pub open spec fn perf_map_line(line: Seq<char>) -> Option<(u64, u64, Seq<char>)> {
    let a = find_char(line, 0, ' ');
    match perf_map_start(line.take(a)) {
        None => None,
        Some(st) => if a >= line.len() {
            Some((st, 0u64, Seq::empty()))
        } else {
            let b = find_char(line, a + 1, ' ');
            match parse_hex_u64(line.subrange(a + 1, b)) {
                None => None,
                Some(size) => if st + size > u64::MAX {
                    None
                } else {
                    Some(
                        (
                            st,
                            (st + size) as u64,
                            if b >= line.len() {
                                Seq::empty()
                            } else {
                                perf_map_name(line.skip(b + 1))
                            },
                        ),
                    )
                },
            }
        },
    }
}

/// Whether a perf map text can be read: every line is a symbol.
pub open spec fn perf_map_parses(t: Seq<char>) -> bool {
    forall|i: int| 0 <= i < text_lines(t, 0).len() ==> #[trigger] perf_map_line(text_lines(t, 0)[i]) is Some
}

/// The symbols of a perf map text, one per line, in order.
pub open spec fn spec_perf_map(t: Seq<char>) -> Seq<(u64, u64, Seq<char>)> {
    text_lines(t, 0).map_values(|l: Seq<char>| perf_map_line(l)->0)
}

/// The characters of `s` from `a` up to `b`.
fn copy_range(s: &Vec<char>, a: usize, b: usize) -> (r: Vec<char>)
    requires
        a <= b <= s@.len(),
    ensures
        r@ == s@.subrange(a as int, b as int),
{
    let mut r: Vec<char> = Vec::new();
    let mut i = a;
    while i < b
        invariant
            a <= i <= b,
            b <= s@.len(),
            r@ == s@.subrange(a as int, i as int),
        decreases b - i,
    {
        r.push(s[i]);
        assert(s@.subrange(a as int, i + 1) =~= s@.subrange(a as int, i as int).push(s@[i as int]));
        i = i + 1;
    }
    r
}

fn find_char_from(s: &Vec<char>, i: usize, c: char) -> (j: usize)
    requires
        i <= s@.len(),
    ensures
        j == find_char(s@, i as int, c),
{
    let mut j = i;
    while j < s.len() && s[j] != c
        invariant
            i <= j <= s@.len(),
            find_char(s@, j as int, c) == find_char(s@, i as int, c),
        decreases s@.len() - j,
    {
        j = j + 1;
    }
    j
}

fn read_perf_map_line(line: &Vec<char>) -> (r: Option<(u64, u64, String)>)
    ensures
        match perf_map_line(line@) {
            None => r is None,
            Some(p) => r matches Some(x) && x.0 == p.0 && x.1 == p.1 && x.2@ == p.2,
        },
{
    let n = line.len();
    let a = find_char_from(line, 0, ' ');
    proof {
        lemma_find_char(line@, 0, ' ');
    }
    let p0 = copy_range(line, 0, a);
    assert(p0@ =~= line@.take(a as int));
    let start = if p0.len() >= 2 && p0[0] == '0' && (p0[1] == 'x' || p0[1] == 'X') {
        let digits = copy_range(&p0, 2, p0.len());
        assert(digits@ =~= p0@.skip(2));
        hex_u64(&digits)
    } else {
        hex_u64(&p0)
    };
    let st = match start {
        Some(st) => st,
        None => {
            return None;
        },
    };
    if a >= n {
        return Some((st, 0, String::new()));
    }
    let b = find_char_from(line, a + 1, ' ');
    proof {
        lemma_find_char(line@, a + 1, ' ');
    }
    let p1 = copy_range(line, a + 1, b);
    let size = match hex_u64(&p1) {
        Some(size) => size,
        None => {
            return None;
        },
    };
    if size > u64::MAX - st {
        return None;
    }
    let mut name = String::new();
    if b < n {
        let rest = copy_range(line, b + 1, n);
        assert(rest@ =~= line@.skip(b + 1));
        let z = find_char_from(&rest, 0, '\0');
        proof {
            lemma_find_char(rest@, 0, '\0');
        }
        let mut m = z;
        if z > 0 && rest[z - 1] == '\n' {
            m = z - 1;
        }
        let mut i: usize = 0;
        while i < m
            invariant
                i <= m <= z,
                z <= rest@.len(),
                name@ == rest@.take(i as int),
            decreases m - i,
        {
            string_push(&mut name, rest[i]);
            assert(rest@.take(i + 1) =~= rest@.take(i as int).push(rest@[i as int]));
            i = i + 1;
        }
        proof {
            let u = rest@.take(z as int);
            if z > 0 && rest@[z - 1] == '\n' {
                assert(name@ =~= u.drop_last());
            } else {
                assert(name@ =~= u);
            }
        }
    }
    Some((st, st + size, name))
}

/// The symbols of the perf map in `text`, read line by line (see
/// `utf8_text`): those of `spec_perf_map`, or `None` when a line cannot be
/// read (see `perf_map_parses`).
pub fn perf_map_symbols(text: &[u8]) -> (r: Option<Vec<SymbolEntry>>)
    ensures
        r matches Some(v) ==> entry_views(v@) == spec_perf_map(utf8_text(text@, 0)),
        r is None <==> !perf_map_parses(utf8_text(text@, 0)),
{
    let cs = utf8_line_chars(text);
    perf_map_of_chars(&cs)
}

fn perf_map_of_chars(cs: &Vec<char>) -> (r: Option<Vec<SymbolEntry>>)
    ensures
        r matches Some(v) ==> entry_views(v@) == spec_perf_map(cs@),
        r is None <==> !perf_map_parses(cs@),
{
    let ghost text = cs@;
    let lines = lines_of(cs);
    let ghost ls = text_lines(text, 0);
    assert(forall|i: int| 0 <= i < lines@.len() ==> #[trigger] lines@[i]@ == ls[i]);
    let mut out: Vec<SymbolEntry> = Vec::new();
    let mut i: usize = 0;
    while i < lines.len()
        invariant
            i <= lines@.len(),
            lines@.len() == ls.len(),
            ls == text_lines(text, 0),
            text == cs@,
            forall|j: int| 0 <= j < lines@.len() ==> #[trigger] lines@[j]@ == ls[j],
            forall|j: int| 0 <= j < i ==> #[trigger] perf_map_line(ls[j]) is Some,
            entry_views(out@) == ls.take(i as int).map_values(|l: Seq<char>| perf_map_line(l)->0),
        decreases lines@.len() - i,
    {
        match read_perf_map_line(&lines[i]) {
            Some((start, end, name)) => {
                let ghost before = out@;
                let ghost nv = name@;
                out.push(SymbolEntry::new(start, end, name));
                assert(lines@[i as int]@ == ls[i as int]);
                assert(perf_map_line(ls[i as int])->0 == (start, end, nv));
                assert(entry_views(out@) =~= entry_views(before).push((start, end, nv)));
                assert(ls.take(i + 1).map_values(|l: Seq<char>| perf_map_line(l)->0) =~= ls.take(i as int).map_values(
                    |l: Seq<char>| perf_map_line(l)->0,
                ).push(perf_map_line(ls[i as int])->0));
            },
            None => {
                assert(perf_map_line(ls[i as int]) is None);
                return None;
            },
        }
        i = i + 1;
    }
    assert(ls.take(i as int) =~= ls);
    Some(out)
}

} // verus!
