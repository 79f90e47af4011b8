//! Request handling of the local file server: URL decoding, the checks that
//! keep requests inside the served directory, path names and MIME types.
//!
//! Paths are read by the conventions of a platform ([`PathStyle`]).

use vstd::prelude::*;
use crate::text::{
    append_chars, append_str, chars_of, has_substring, push_decimal, decimal, starts_with,
    starts_with_chars, contains_chars, string_of,
};

verus! {

// ---------------------------------------------------------------------------
// URL decoding
// ---------------------------------------------------------------------------

/// ASCII hexadecimal digit, either case.
pub open spec fn is_hex_digit(c: char) -> bool {
    ('0' <= c && c <= '9') || ('a' <= c && c <= 'f') || ('A' <= c && c <= 'F')
}

/// The value of an ASCII hexadecimal digit.
pub open spec fn hex_value(c: char) -> int {
    if '0' <= c && c <= '9' {
        c as int - '0' as int
    } else if 'a' <= c && c <= 'f' {
        c as int - 'a' as int + 10
    } else {
        c as int - 'A' as int + 10
    }
}

/// The byte that the two characters after a `%` stand for, as
/// `u8::from_str_radix(_, 16)` reads them: two hex digits, or a `+` sign and
/// one hex digit.  Anything else is not an escape.
pub open spec fn escape_value(t: Seq<char>) -> Option<u8> {
    if t.len() == 2 && is_hex_digit(t[0]) && is_hex_digit(t[1]) {
        Some((hex_value(t[0]) * 16 + hex_value(t[1])) as u8)
    } else if t.len() == 2 && t[0] == '+' && is_hex_digit(t[1]) {
        Some(hex_value(t[1]) as u8)
    } else {
        None
    }
}

/// The decoding of a request path: `+` stands for a space; `%` takes the
/// next two characters (fewer at the end), which become the byte they spell
/// when they form an escape and are otherwise kept, with the `%`, as they
/// are; every other character stands for itself.
pub open spec fn url_decode(s: Seq<char>) -> Seq<char>
    decreases s.len(),
{
    if s.len() == 0 {
        s
    } else if s[0] == '%' {
        let end: int = if s.len() >= 3 {
            3
        } else {
            s.len() as int
        };
        let t = s.subrange(1, end);
        match escape_value(t) {
            Some(b) => seq![b as char] + url_decode(s.skip(end)),
            None => seq!['%'] + t + url_decode(s.skip(end)),
        }
    } else if s[0] == '+' {
        seq![' '] + url_decode(s.drop_first())
    } else {
        seq![s[0]] + url_decode(s.drop_first())
    }
}

fn hex_digit_value(c: char) -> (r: Option<u8>)
    ensures
        match r {
            Some(v) => is_hex_digit(c) && v == hex_value(c),
            None => !is_hex_digit(c),
        },
{
    if '0' <= c && c <= '9' {
        Some((c as u32 - 48u32) as u8)
    } else if 'a' <= c && c <= 'f' {
        Some((c as u32 - 97u32 + 10u32) as u8)
    } else if 'A' <= c && c <= 'F' {
        Some((c as u32 - 65u32 + 10u32) as u8)
    } else {
        None
    }
}

fn escape_byte(s: &[char], lo: usize, hi: usize) -> (r: Option<u8>)
    requires
        lo <= hi <= s.len(),
    ensures
        r == escape_value(s@.subrange(lo as int, hi as int)),
{
    if hi - lo != 2 {
        return None;
    }
    let a = s[lo];
    let b = s[lo + 1];
    match (hex_digit_value(a), hex_digit_value(b)) {
        (Some(x), Some(y)) => Some(x * 16 + y),
        (None, Some(y)) => {
            if a == '+' {
                Some(y)
            } else {
                None
            }
        },
        _ => None,
    }
}

/// Decodes a request path (see [`url_decode`]).
pub fn urlencoding_decode(s: &str) -> (r: String)
    ensures
        r@ == url_decode(s@),
{
    let v = chars_of(s);
    let n = v.len();
    let mut out: Vec<char> = Vec::new();
    let mut i: usize = 0;
    assert(v@.skip(0) =~= v@);
    while i < n
        invariant
            i <= n,
            n == v@.len(),
            url_decode(v@) == out@ + url_decode(v@.skip(i as int)),
        decreases n - i,
    {
        let ghost rest = v@.skip(i as int);
        if v[i] == '%' {
            let end: usize = if n - i >= 3 {
                i + 3
            } else {
                n
            };
            proof {
                let e: int = if rest.len() >= 3 {
                    3
                } else {
                    rest.len() as int
                };
                assert(rest.subrange(1, e) =~= v@.subrange(i + 1, end as int));
                assert(rest.skip(e) =~= v@.skip(end as int));
            }
            match escape_byte(v.as_slice(), i + 1, end) {
                Some(b) => {
                    out.push(b as char);
                },
                None => {
                    out.push('%');
                    let mut k: usize = i + 1;
                    let ghost before = out@;
                    while k < end
                        invariant
                            i + 1 <= k <= end,
                            end <= n,
                            n == v@.len(),
                            out@ == before + v@.subrange(i + 1, k as int),
                        decreases end - k,
                    {
                        out.push(v[k]);
                        assert(v@.subrange(i + 1, k + 1) =~= v@.subrange(i + 1, k as int).push(
                            v@[k as int],
                        ));
                        k = k + 1;
                    }
                },
            }
            i = end;
        } else if v[i] == '+' {
            assert(rest.drop_first() =~= v@.skip(i + 1));
            out.push(' ');
            i = i + 1;
        } else {
            assert(rest.drop_first() =~= v@.skip(i + 1));
            out.push(v[i]);
            i = i + 1;
        }
    }
    assert(v@.skip(i as int) =~= Seq::<char>::empty());
    string_of(out.as_slice())
}

/// A path without `%` and `+` decodes to itself.
pub proof fn lemma_decode_plain(s: Seq<char>)
    requires
        forall|i: int| 0 <= i < s.len() ==> s[i] != '%' && s[i] != '+',
    ensures
        url_decode(s) == s,
    decreases s.len(),
{
    if s.len() > 0 {
        lemma_decode_plain(s.drop_first());
        assert(seq![s[0]] + s.drop_first() =~= s);
    }
}

// ---------------------------------------------------------------------------
// Path names
// ---------------------------------------------------------------------------

/// The conventions of a platform's paths (`std::path` on that platform).
#[derive(Debug, Clone, Copy, PartialEq, Eq, Structural)]
pub enum PathStyle {
    /// `/` separates components.
    Unix,
    /// `/` and `\` separate components.
    Windows,
}

/// Whether `c` separates path components in paths of `style`.
pub open spec fn is_separator(style: PathStyle, c: char) -> bool {
    c == '/' || (style == PathStyle::Windows && c == '\\')
}

/// Whether `c` separates path components in paths of `style`.
pub fn separator(style: PathStyle, c: char) -> (b: bool)
    ensures
        b == is_separator(style, c),
{
    c == '/' || (style == PathStyle::Windows && c == '\\')
}

/// The characters after the last separator of `s`.
pub open spec fn last_segment(s: Seq<char>, style: PathStyle) -> Seq<char>
    decreases s.len(),
{
    if s.len() == 0 || is_separator(style, s.last()) {
        Seq::empty()
    } else {
        last_segment(s.drop_last(), style).push(s.last())
    }
}

/// The position of the last separator of `s`.
pub open spec fn last_separator(s: Seq<char>, style: PathStyle) -> Option<int>
    decreases s.len(),
{
    if s.len() == 0 {
        None
    } else if is_separator(style, s.last()) {
        Some(s.len() - 1)
    } else {
        last_separator(s.drop_last(), style)
    }
}

/// The position of the last separator among the first `end` characters.
pub fn last_separator_before(v: &[char], end: usize, style: PathStyle) -> (r: Option<usize>)
    requires
        end <= v.len(),
    ensures
        match r {
            Some(i) => i < end && last_separator(v@.take(end as int), style) == Some(i as int),
            None => last_separator(v@.take(end as int), style) is None,
        },
    decreases end,
{
    if end == 0 {
        return None;
    }
    assert(v@.take(end as int).drop_last() =~= v@.take(end - 1));
    if separator(style, v[end - 1]) {
        Some(end - 1)
    } else {
        last_separator_before(v, end - 1, style)
    }
}

/// The last component of a path without drive prefix when it is a name:
/// trailing separators and `.` components are skipped; a path that ends in
/// `..`, or has no name component at all, has none.
pub open spec fn name_component(s: Seq<char>, style: PathStyle) -> Option<Seq<char>>
    decreases s.len(),
{
    if s.len() == 0 {
        None
    } else if is_separator(style, s.last()) {
        name_component(s.drop_last(), style)
    } else {
        let seg = last_segment(s, style);
        if seg == seq!['.'] {
            name_component(s.take(s.len() - 1), style)
        } else if seg == seq!['.', '.'] {
            None
        } else {
            Some(seg)
        }
    }
}

/// Whether a path starts with a Windows drive prefix such as `C:`.
pub open spec fn has_drive(s: Seq<char>, style: PathStyle) -> bool {
    &&& style == PathStyle::Windows
    &&& s.len() >= 2
    &&& (('a' <= s[0] && s[0] <= 'z') || ('A' <= s[0] && s[0] <= 'Z'))
    &&& s[1] == ':'
}

/// A path without its drive prefix.
pub open spec fn strip_drive(s: Seq<char>, style: PathStyle) -> Seq<char> {
    if has_drive(s, style) {
        s.skip(2)
    } else {
        s
    }
}

/// The last component of a path when it is a name (`Path::file_name`): a
/// drive prefix is not a name; trailing separators and `.` components are
/// skipped; a path that ends in `..`, or has no name component at all, has
/// none.
pub open spec fn file_name(s: Seq<char>, style: PathStyle) -> Option<Seq<char>> {
    name_component(strip_drive(s, style), style)
}

/// Whether a path starts with a Windows drive prefix.
pub fn starts_with_drive(v: &[char], style: PathStyle) -> (b: bool)
    ensures
        b == has_drive(v@, style),
{
    style == PathStyle::Windows && v.len() >= 2 && (('a' <= v[0] && v[0] <= 'z') || ('A' <= v[0]
        && v[0] <= 'Z')) && v[1] == ':'
}

/// A path without its drive prefix, as characters.
fn strip_drive_chars(v: &[char], style: PathStyle) -> (r: Vec<char>)
    ensures
        r@ == strip_drive(v@, style),
{
    let start: usize = if starts_with_drive(v, style) {
        2
    } else {
        0
    };
    let mut r: Vec<char> = Vec::new();
    let mut k: usize = start;
    while k < v.len()
        invariant
            start <= k <= v.len(),
            start == 0 || start == 2,
            r@ == v@.subrange(start as int, k as int),
        decreases v.len() - k,
    {
        r.push(v[k]);
        assert(v@.subrange(start as int, k + 1) =~= v@.subrange(start as int, k as int).push(v@[k as int]));
        k = k + 1;
    }
    assert(v@.subrange(start as int, v.len() as int) =~= v@.skip(start as int));
    assert(v@.skip(0) =~= v@);
    r
}

/// The position of the last `c` in `s`.
pub open spec fn last_index_of(s: Seq<char>, c: char) -> Option<int>
    decreases s.len(),
{
    if s.len() == 0 {
        None
    } else if s.last() == c {
        Some(s.len() - 1)
    } else {
        last_index_of(s.drop_last(), c)
    }
}

/// The extension of a file name: what follows its last `.`, unless that
/// `.` is the name's first character.
pub open spec fn name_extension(name: Seq<char>) -> Option<Seq<char>> {
    match last_index_of(name, '.') {
        Some(i) => if i == 0 {
            None
        } else {
            Some(name.skip(i + 1))
        },
        None => None,
    }
}

/// The extension of a path (`Path::extension`).
pub open spec fn path_extension(path: Seq<char>, style: PathStyle) -> Option<Seq<char>> {
    match file_name(path, style) {
        Some(name) => name_extension(name),
        None => None,
    }
}

/// `s` with ASCII capitals made small; other characters are unchanged.
pub open spec fn ascii_lowercase(s: Seq<char>) -> Seq<char> {
    s.map_values(|c: char| if 'A' <= c && c <= 'Z' { ((c as int) + 32) as char } else { c })
}

fn last_segment_start(s: &[char], end: usize, style: PathStyle) -> (r: usize)
    requires
        end <= s.len(),
    ensures
        r <= end,
        last_segment(s@.take(end as int), style) == s@.subrange(r as int, end as int),
        r > 0 ==> is_separator(style, s@[r - 1]),
    decreases end,
{
    if end == 0 || separator(style, s[end - 1]) {
        assert(s@.take(end as int).len() == 0 || is_separator(style, s@.take(end as int).last()));
        end
    } else {
        assert(s@.take(end as int).drop_last() =~= s@.take(end - 1));
        let r = last_segment_start(s, end - 1, style);
        assert(s@.subrange(r as int, end as int) =~= s@.subrange(r as int, end - 1).push(
            s@[end - 1],
        ));
        r
    }
}

fn file_name_range(s: &[char], end: usize, style: PathStyle) -> (r: Option<(usize, usize)>)
    requires
        end <= s.len(),
    ensures
        match r {
            Some((lo, hi)) => lo <= hi <= end && name_component(s@.take(end as int), style) == Some(
                s@.subrange(lo as int, hi as int),
            ),
            None => name_component(s@.take(end as int), style) is None,
        },
    decreases end,
{
    let ghost t = s@.take(end as int);
    if end == 0 {
        return None;
    }
    if separator(style, s[end - 1]) {
        assert(t.drop_last() =~= s@.take(end - 1));
        return file_name_range(s, end - 1, style);
    }
    let lo = last_segment_start(s, end, style);
    let len = end - lo;
    if len == 1 && s[lo] == '.' {
        assert(s@.subrange(lo as int, end as int) =~= seq!['.']);
        assert(t.take(t.len() - 1) =~= s@.take(end - 1));
        return file_name_range(s, end - 1, style);
    }
    if len == 2 && s[lo] == '.' && s[lo + 1] == '.' {
        assert(s@.subrange(lo as int, end as int) =~= seq!['.', '.']);
        return None;
    }
    proof {
        let seg = s@.subrange(lo as int, end as int);
        if seg == seq!['.'] {
            assert(seg[0] == s@[lo as int]);
        }
        if seg == seq!['.', '.'] {
            assert(seg[0] == s@[lo as int] && seg[1] == s@[lo + 1]);
        }
    }
    Some((lo, end))
}

/// The file name of a path (`Path::file_name`), as characters.
pub fn file_name_of(path: &[char], style: PathStyle) -> (r: Option<Vec<char>>)
    ensures
        match r {
            Some(n) => file_name(path@, style) == Some(n@),
            None => file_name(path@, style) is None,
        },
{
    let stripped = strip_drive_chars(path, style);
    let path = stripped.as_slice();
    assert(path@.take(path.len() as int) =~= path@);
    match file_name_range(path, path.len(), style) {
        None => None,
        Some((lo, hi)) => {
            let mut n: Vec<char> = Vec::new();
            let mut k: usize = lo;
            while k < hi
                invariant
                    lo <= k <= hi,
                    hi <= path.len(),
                    n@ == path@.subrange(lo as int, k as int),
                decreases hi - k,
            {
                n.push(path[k]);
                assert(path@.subrange(lo as int, k + 1) =~= path@.subrange(lo as int, k as int).push(
                    path@[k as int],
                ));
                k = k + 1;
            }
            Some(n)
        },
    }
}

fn last_dot(s: &[char], lo: usize, hi: usize) -> (r: Option<usize>)
    requires
        lo <= hi <= s.len(),
    ensures
        match r {
            Some(i) => lo <= i < hi && last_index_of(s@.subrange(lo as int, hi as int), '.') == Some(
                i - lo,
            ),
            None => last_index_of(s@.subrange(lo as int, hi as int), '.') is None,
        },
    decreases hi - lo,
{
    if hi == lo {
        return None;
    }
    assert(s@.subrange(lo as int, hi as int).drop_last() =~= s@.subrange(lo as int, hi - 1));
    if s[hi - 1] == '.' {
        Some(hi - 1)
    } else {
        last_dot(s, lo, hi - 1)
    }
}

/// The extension of a path, as characters.
pub fn extension_chars(path: &[char], style: PathStyle) -> (r: Option<Vec<char>>)
    ensures
        match r {
            Some(e) => path_extension(path@, style) == Some(e@),
            None => path_extension(path@, style) is None,
        },
{
    let stripped = strip_drive_chars(path, style);
    let path = stripped.as_slice();
    assert(path@.take(path.len() as int) =~= path@);
    match file_name_range(path, path.len(), style) {
        None => None,
        Some((lo, hi)) => {
            match last_dot(path, lo, hi) {
                None => None,
                Some(d) => {
                    if d == lo {
                        None
                    } else {
                        let mut e: Vec<char> = Vec::new();
                        let mut k: usize = d + 1;
                        while k < hi
                            invariant
                                d + 1 <= k <= hi,
                                hi <= path.len(),
                                e@ == path@.subrange(d + 1, k as int),
                            decreases hi - k,
                        {
                            e.push(path[k]);
                            assert(path@.subrange(d + 1, k + 1) =~= path@.subrange(d + 1, k as int).push(
                                path@[k as int],
                            ));
                            k = k + 1;
                        }
                        assert(path@.subrange(lo as int, hi as int).skip(d - lo + 1) =~= e@);
                        Some(e)
                    }
                },
            }
        },
    }
}

/// `str::to_ascii_lowercase` on characters.
pub fn ascii_lowercase_chars(v: &[char]) -> (r: Vec<char>)
    ensures
        r@ == ascii_lowercase(v@),
{
    let mut r: Vec<char> = Vec::new();
    let mut i: usize = 0;
    while i < v.len()
        invariant
            i <= v.len(),
            r@ == ascii_lowercase(v@.take(i as int)),
        decreases v.len() - i,
    {
        let c = v[i];
        let l = if 'A' <= c && c <= 'Z' {
            ((c as u8) + 32u8) as char
        } else {
            c
        };
        r.push(l);
        assert(ascii_lowercase(v@.take(i + 1)) =~= ascii_lowercase(v@.take(i as int)).push(l));
        i = i + 1;
    }
    assert(v@.take(v.len() as int) =~= v@);
    r
}

// ---------------------------------------------------------------------------
// MIME types
// ---------------------------------------------------------------------------

/// The content type served for a (lowercased) extension.
pub open spec fn content_type_for_extension(e: Seq<char>) -> &'static str {
    if e == "html"@ || e == "htm"@ {
        "text/html; charset=utf-8"
    } else if e == "css"@ {
        "text/css; charset=utf-8"
    } else if e == "js"@ {
        "application/javascript; charset=utf-8"
    } else if e == "json"@ {
        "application/json; charset=utf-8"
    } else if e == "png"@ {
        "image/png"
    } else if e == "jpg"@ || e == "jpeg"@ {
        "image/jpeg"
    } else if e == "gif"@ {
        "image/gif"
    } else if e == "svg"@ {
        "image/svg+xml"
    } else if e == "webp"@ {
        "image/webp"
    } else if e == "ico"@ {
        "image/x-icon"
    } else if e == "woff"@ {
        "font/woff"
    } else if e == "woff2"@ {
        "font/woff2"
    } else if e == "ttf"@ {
        "font/ttf"
    } else if e == "otf"@ {
        "font/otf"
    } else if e == "mp4"@ {
        "video/mp4"
    } else if e == "webm"@ {
        "video/webm"
    } else if e == "mp3"@ {
        "audio/mpeg"
    } else if e == "wav"@ {
        "audio/wav"
    } else if e == "ogg"@ {
        "audio/ogg"
    } else if e == "txt"@ {
        "text/plain; charset=utf-8"
    } else if e == "xml"@ {
        "application/xml; charset=utf-8"
    } else if e == "pdf"@ {
        "application/pdf"
    } else {
        "application/octet-stream"
    }
}

proof fn lemma_mime_words()
    ensures
        "html"@ == seq!['h', 't', 'm', 'l'],
        "htm"@ == seq!['h', 't', 'm'],
        "css"@ == seq!['c', 's', 's'],
        "js"@ == seq!['j', 's'],
        "json"@ == seq!['j', 's', 'o', 'n'],
        "png"@ == seq!['p', 'n', 'g'],
        "jpg"@ == seq!['j', 'p', 'g'],
        "jpeg"@ == seq!['j', 'p', 'e', 'g'],
        "gif"@ == seq!['g', 'i', 'f'],
        "svg"@ == seq!['s', 'v', 'g'],
        "webp"@ == seq!['w', 'e', 'b', 'p'],
        "ico"@ == seq!['i', 'c', 'o'],
        "woff"@ == seq!['w', 'o', 'f', 'f'],
        "woff2"@ == seq!['w', 'o', 'f', 'f', '2'],
        "ttf"@ == seq!['t', 't', 'f'],
        "otf"@ == seq!['o', 't', 'f'],
        "mp4"@ == seq!['m', 'p', '4'],
        "webm"@ == seq!['w', 'e', 'b', 'm'],
        "mp3"@ == seq!['m', 'p', '3'],
        "wav"@ == seq!['w', 'a', 'v'],
        "ogg"@ == seq!['o', 'g', 'g'],
        "txt"@ == seq!['t', 'x', 't'],
        "xml"@ == seq!['x', 'm', 'l'],
        "pdf"@ == seq!['p', 'd', 'f'],
        "bin"@ == seq!['b', 'i', 'n'],
{
    reveal_strlit("html");
    assert("html"@ =~= seq!['h', 't', 'm', 'l']);
    reveal_strlit("htm");
    assert("htm"@ =~= seq!['h', 't', 'm']);
    reveal_strlit("css");
    assert("css"@ =~= seq!['c', 's', 's']);
    reveal_strlit("js");
    assert("js"@ =~= seq!['j', 's']);
    reveal_strlit("json");
    assert("json"@ =~= seq!['j', 's', 'o', 'n']);
    reveal_strlit("png");
    assert("png"@ =~= seq!['p', 'n', 'g']);
    reveal_strlit("jpg");
    assert("jpg"@ =~= seq!['j', 'p', 'g']);
    reveal_strlit("jpeg");
    assert("jpeg"@ =~= seq!['j', 'p', 'e', 'g']);
    reveal_strlit("gif");
    assert("gif"@ =~= seq!['g', 'i', 'f']);
    reveal_strlit("svg");
    assert("svg"@ =~= seq!['s', 'v', 'g']);
    reveal_strlit("webp");
    assert("webp"@ =~= seq!['w', 'e', 'b', 'p']);
    reveal_strlit("ico");
    assert("ico"@ =~= seq!['i', 'c', 'o']);
    reveal_strlit("woff");
    assert("woff"@ =~= seq!['w', 'o', 'f', 'f']);
    reveal_strlit("woff2");
    assert("woff2"@ =~= seq!['w', 'o', 'f', 'f', '2']);
    reveal_strlit("ttf");
    assert("ttf"@ =~= seq!['t', 't', 'f']);
    reveal_strlit("otf");
    assert("otf"@ =~= seq!['o', 't', 'f']);
    reveal_strlit("mp4");
    assert("mp4"@ =~= seq!['m', 'p', '4']);
    reveal_strlit("webm");
    assert("webm"@ =~= seq!['w', 'e', 'b', 'm']);
    reveal_strlit("mp3");
    assert("mp3"@ =~= seq!['m', 'p', '3']);
    reveal_strlit("wav");
    assert("wav"@ =~= seq!['w', 'a', 'v']);
    reveal_strlit("ogg");
    assert("ogg"@ =~= seq!['o', 'g', 'g']);
    reveal_strlit("txt");
    assert("txt"@ =~= seq!['t', 'x', 't']);
    reveal_strlit("xml");
    assert("xml"@ =~= seq!['x', 'm', 'l']);
    reveal_strlit("pdf");
    assert("pdf"@ =~= seq!['p', 'd', 'f']);
    reveal_strlit("bin");
    assert("bin"@ =~= seq!['b', 'i', 'n']);
}

/// The MIME table: each extension the server knows and the type it is
/// served as; anything else, and no extension at all, is served as
/// `application/octet-stream`.
pub proof fn lemma_content_type_table()
    ensures
        content_type_for_extension("html"@) == "text/html; charset=utf-8",
        content_type_for_extension("htm"@) == "text/html; charset=utf-8",
        content_type_for_extension("css"@) == "text/css; charset=utf-8",
        content_type_for_extension("js"@) == "application/javascript; charset=utf-8",
        content_type_for_extension("json"@) == "application/json; charset=utf-8",
        content_type_for_extension("png"@) == "image/png",
        content_type_for_extension("jpg"@) == "image/jpeg",
        content_type_for_extension("jpeg"@) == "image/jpeg",
        content_type_for_extension("gif"@) == "image/gif",
        content_type_for_extension("svg"@) == "image/svg+xml",
        content_type_for_extension("webp"@) == "image/webp",
        content_type_for_extension("ico"@) == "image/x-icon",
        content_type_for_extension("woff"@) == "font/woff",
        content_type_for_extension("woff2"@) == "font/woff2",
        content_type_for_extension("ttf"@) == "font/ttf",
        content_type_for_extension("otf"@) == "font/otf",
        content_type_for_extension("mp4"@) == "video/mp4",
        content_type_for_extension("webm"@) == "video/webm",
        content_type_for_extension("mp3"@) == "audio/mpeg",
        content_type_for_extension("wav"@) == "audio/wav",
        content_type_for_extension("ogg"@) == "audio/ogg",
        content_type_for_extension("txt"@) == "text/plain; charset=utf-8",
        content_type_for_extension("xml"@) == "application/xml; charset=utf-8",
        content_type_for_extension("pdf"@) == "application/pdf",
        content_type_for_extension(Seq::empty()) == "application/octet-stream",
        content_type_for_extension("bin"@) == "application/octet-stream",
{
    assert(content_type_for_extension("html"@) == "text/html; charset=utf-8") by {
        lemma_mime_words();
    }
    assert(content_type_for_extension("htm"@) == "text/html; charset=utf-8") by {
        lemma_mime_words();
    }
    assert(content_type_for_extension("css"@) == "text/css; charset=utf-8") by {
        lemma_mime_words();
        assert("css"@[0] != "htm"@[0]);
    }
    assert(content_type_for_extension("js"@) == "application/javascript; charset=utf-8") by {
        lemma_mime_words();
    }
    assert(content_type_for_extension("json"@) == "application/json; charset=utf-8") by {
        lemma_mime_words();
        assert("json"@.len() != "js"@.len());
        assert("json"@[0] != "html"@[0]);
    }
    assert(content_type_for_extension("png"@) == "image/png") by {
        lemma_mime_words();
        assert("png"@[0] != "htm"@[0]);
        assert("png"@[0] != "css"@[0]);
    }
    assert(content_type_for_extension("jpg"@) == "image/jpeg") by {
        lemma_mime_words();
        assert("jpg"@[0] != "htm"@[0]);
        assert("jpg"@[0] != "css"@[0]);
        assert("jpg"@[0] != "png"@[0]);
    }
    assert(content_type_for_extension("jpeg"@) == "image/jpeg") by {
        lemma_mime_words();
        assert("jpeg"@[0] != "html"@[0]);
        assert("jpeg"@[1] != "json"@[1]);
    }
    assert(content_type_for_extension("gif"@) == "image/gif") by {
        lemma_mime_words();
        assert("gif"@[0] != "htm"@[0]);
        assert("gif"@[0] != "css"@[0]);
        assert("gif"@[0] != "png"@[0]);
        assert("gif"@[0] != "jpg"@[0]);
    }
    assert(content_type_for_extension("svg"@) == "image/svg+xml") by {
        lemma_mime_words();
        assert("svg"@[0] != "htm"@[0]);
        assert("svg"@[0] != "css"@[0]);
        assert("svg"@[0] != "png"@[0]);
        assert("svg"@[0] != "jpg"@[0]);
        assert("svg"@[0] != "gif"@[0]);
    }
    assert(content_type_for_extension("webp"@) == "image/webp") by {
        lemma_mime_words();
        assert("webp"@[0] != "html"@[0]);
        assert("webp"@[0] != "json"@[0]);
        assert("webp"@[0] != "jpeg"@[0]);
    }
    assert(content_type_for_extension("ico"@) == "image/x-icon") by {
        lemma_mime_words();
        assert("ico"@[0] != "htm"@[0]);
        assert("ico"@[0] != "css"@[0]);
        assert("ico"@[0] != "png"@[0]);
        assert("ico"@[0] != "jpg"@[0]);
        assert("ico"@[0] != "gif"@[0]);
        assert("ico"@[0] != "svg"@[0]);
    }
    assert(content_type_for_extension("woff"@) == "font/woff") by {
        lemma_mime_words();
        assert("woff"@[0] != "html"@[0]);
        assert("woff"@[0] != "json"@[0]);
        assert("woff"@[0] != "jpeg"@[0]);
        assert("woff"@[1] != "webp"@[1]);
    }
    assert(content_type_for_extension("woff2"@) == "font/woff2") by {
        lemma_mime_words();
        assert("woff2"@.len() != "woff"@.len());
    }
    assert(content_type_for_extension("ttf"@) == "font/ttf") by {
        lemma_mime_words();
        assert("ttf"@[0] != "htm"@[0]);
        assert("ttf"@[0] != "css"@[0]);
        assert("ttf"@[0] != "png"@[0]);
        assert("ttf"@[0] != "jpg"@[0]);
        assert("ttf"@[0] != "gif"@[0]);
        assert("ttf"@[0] != "svg"@[0]);
        assert("ttf"@[0] != "ico"@[0]);
    }
    assert(content_type_for_extension("otf"@) == "font/otf") by {
        lemma_mime_words();
        assert("otf"@[0] != "htm"@[0]);
        assert("otf"@[0] != "css"@[0]);
        assert("otf"@[0] != "png"@[0]);
        assert("otf"@[0] != "jpg"@[0]);
        assert("otf"@[0] != "gif"@[0]);
        assert("otf"@[0] != "svg"@[0]);
        assert("otf"@[0] != "ico"@[0]);
        assert("otf"@[0] != "ttf"@[0]);
    }
    assert(content_type_for_extension("mp4"@) == "video/mp4") by {
        lemma_mime_words();
        assert("mp4"@[0] != "htm"@[0]);
        assert("mp4"@[0] != "css"@[0]);
        assert("mp4"@[0] != "png"@[0]);
        assert("mp4"@[0] != "jpg"@[0]);
        assert("mp4"@[0] != "gif"@[0]);
        assert("mp4"@[0] != "svg"@[0]);
        assert("mp4"@[0] != "ico"@[0]);
        assert("mp4"@[0] != "ttf"@[0]);
        assert("mp4"@[0] != "otf"@[0]);
    }
    assert(content_type_for_extension("webm"@) == "video/webm") by {
        lemma_mime_words();
        assert("webm"@[0] != "html"@[0]);
        assert("webm"@[0] != "json"@[0]);
        assert("webm"@[0] != "jpeg"@[0]);
        assert("webm"@[3] != "webp"@[3]);
        assert("webm"@[1] != "woff"@[1]);
    }
    assert(content_type_for_extension("mp3"@) == "audio/mpeg") by {
        lemma_mime_words();
        assert("mp3"@[0] != "htm"@[0]);
        assert("mp3"@[0] != "css"@[0]);
        assert("mp3"@[0] != "png"@[0]);
        assert("mp3"@[0] != "jpg"@[0]);
        assert("mp3"@[0] != "gif"@[0]);
        assert("mp3"@[0] != "svg"@[0]);
        assert("mp3"@[0] != "ico"@[0]);
        assert("mp3"@[0] != "ttf"@[0]);
        assert("mp3"@[0] != "otf"@[0]);
        assert("mp3"@[2] != "mp4"@[2]);
    }
    assert(content_type_for_extension("wav"@) == "audio/wav") by {
        lemma_mime_words();
        assert("wav"@[0] != "htm"@[0]);
        assert("wav"@[0] != "css"@[0]);
        assert("wav"@[0] != "png"@[0]);
        assert("wav"@[0] != "jpg"@[0]);
        assert("wav"@[0] != "gif"@[0]);
        assert("wav"@[0] != "svg"@[0]);
        assert("wav"@[0] != "ico"@[0]);
        assert("wav"@[0] != "ttf"@[0]);
        assert("wav"@[0] != "otf"@[0]);
        assert("wav"@[0] != "mp4"@[0]);
        assert("wav"@[0] != "mp3"@[0]);
    }
    assert(content_type_for_extension("ogg"@) == "audio/ogg") by {
        lemma_mime_words();
        assert("ogg"@[0] != "htm"@[0]);
        assert("ogg"@[0] != "css"@[0]);
        assert("ogg"@[0] != "png"@[0]);
        assert("ogg"@[0] != "jpg"@[0]);
        assert("ogg"@[0] != "gif"@[0]);
        assert("ogg"@[0] != "svg"@[0]);
        assert("ogg"@[0] != "ico"@[0]);
        assert("ogg"@[0] != "ttf"@[0]);
        assert("ogg"@[1] != "otf"@[1]);
        assert("ogg"@[0] != "mp4"@[0]);
        assert("ogg"@[0] != "mp3"@[0]);
        assert("ogg"@[0] != "wav"@[0]);
    }
    assert(content_type_for_extension("txt"@) == "text/plain; charset=utf-8") by {
        lemma_mime_words();
        assert("txt"@[0] != "htm"@[0]);
        assert("txt"@[0] != "css"@[0]);
        assert("txt"@[0] != "png"@[0]);
        assert("txt"@[0] != "jpg"@[0]);
        assert("txt"@[0] != "gif"@[0]);
        assert("txt"@[0] != "svg"@[0]);
        assert("txt"@[0] != "ico"@[0]);
        assert("txt"@[1] != "ttf"@[1]);
        assert("txt"@[0] != "otf"@[0]);
        assert("txt"@[0] != "mp4"@[0]);
        assert("txt"@[0] != "mp3"@[0]);
        assert("txt"@[0] != "wav"@[0]);
        assert("txt"@[0] != "ogg"@[0]);
    }
    assert(content_type_for_extension("xml"@) == "application/xml; charset=utf-8") by {
        lemma_mime_words();
        assert("xml"@[0] != "htm"@[0]);
        assert("xml"@[0] != "css"@[0]);
        assert("xml"@[0] != "png"@[0]);
        assert("xml"@[0] != "jpg"@[0]);
        assert("xml"@[0] != "gif"@[0]);
        assert("xml"@[0] != "svg"@[0]);
        assert("xml"@[0] != "ico"@[0]);
        assert("xml"@[0] != "ttf"@[0]);
        assert("xml"@[0] != "otf"@[0]);
        assert("xml"@[0] != "mp4"@[0]);
        assert("xml"@[0] != "mp3"@[0]);
        assert("xml"@[0] != "wav"@[0]);
        assert("xml"@[0] != "ogg"@[0]);
        assert("xml"@[0] != "txt"@[0]);
    }
    assert(content_type_for_extension("pdf"@) == "application/pdf") by {
        lemma_mime_words();
        assert("pdf"@[0] != "htm"@[0]);
        assert("pdf"@[0] != "css"@[0]);
        assert("pdf"@[1] != "png"@[1]);
        assert("pdf"@[0] != "jpg"@[0]);
        assert("pdf"@[0] != "gif"@[0]);
        assert("pdf"@[0] != "svg"@[0]);
        assert("pdf"@[0] != "ico"@[0]);
        assert("pdf"@[0] != "ttf"@[0]);
        assert("pdf"@[0] != "otf"@[0]);
        assert("pdf"@[0] != "mp4"@[0]);
        assert("pdf"@[0] != "mp3"@[0]);
        assert("pdf"@[0] != "wav"@[0]);
        assert("pdf"@[0] != "ogg"@[0]);
        assert("pdf"@[0] != "txt"@[0]);
        assert("pdf"@[0] != "xml"@[0]);
    }
    assert(content_type_for_extension("bin"@) == "application/octet-stream") by {
        lemma_mime_words();
        assert("bin"@[0] != "htm"@[0]);
        assert("bin"@[0] != "css"@[0]);
        assert("bin"@[0] != "png"@[0]);
        assert("bin"@[0] != "jpg"@[0]);
        assert("bin"@[0] != "gif"@[0]);
        assert("bin"@[0] != "svg"@[0]);
        assert("bin"@[0] != "ico"@[0]);
        assert("bin"@[0] != "ttf"@[0]);
        assert("bin"@[0] != "otf"@[0]);
        assert("bin"@[0] != "mp4"@[0]);
        assert("bin"@[0] != "mp3"@[0]);
        assert("bin"@[0] != "wav"@[0]);
        assert("bin"@[0] != "ogg"@[0]);
        assert("bin"@[0] != "txt"@[0]);
        assert("bin"@[0] != "xml"@[0]);
        assert("bin"@[0] != "pdf"@[0]);
    }
    assert(content_type_for_extension(Seq::empty()) == "application/octet-stream") by {
        lemma_mime_words();
        assert(Seq::<char>::empty() != "html"@) by { assert("html"@.len() > 0); }
        assert(Seq::<char>::empty() != "htm"@) by { assert("htm"@.len() > 0); }
        assert(Seq::<char>::empty() != "css"@) by { assert("css"@.len() > 0); }
        assert(Seq::<char>::empty() != "js"@) by { assert("js"@.len() > 0); }
        assert(Seq::<char>::empty() != "json"@) by { assert("json"@.len() > 0); }
        assert(Seq::<char>::empty() != "png"@) by { assert("png"@.len() > 0); }
        assert(Seq::<char>::empty() != "jpg"@) by { assert("jpg"@.len() > 0); }
        assert(Seq::<char>::empty() != "jpeg"@) by { assert("jpeg"@.len() > 0); }
        assert(Seq::<char>::empty() != "gif"@) by { assert("gif"@.len() > 0); }
        assert(Seq::<char>::empty() != "svg"@) by { assert("svg"@.len() > 0); }
        assert(Seq::<char>::empty() != "webp"@) by { assert("webp"@.len() > 0); }
        assert(Seq::<char>::empty() != "ico"@) by { assert("ico"@.len() > 0); }
        assert(Seq::<char>::empty() != "woff"@) by { assert("woff"@.len() > 0); }
        assert(Seq::<char>::empty() != "woff2"@) by { assert("woff2"@.len() > 0); }
        assert(Seq::<char>::empty() != "ttf"@) by { assert("ttf"@.len() > 0); }
        assert(Seq::<char>::empty() != "otf"@) by { assert("otf"@.len() > 0); }
        assert(Seq::<char>::empty() != "mp4"@) by { assert("mp4"@.len() > 0); }
        assert(Seq::<char>::empty() != "webm"@) by { assert("webm"@.len() > 0); }
        assert(Seq::<char>::empty() != "mp3"@) by { assert("mp3"@.len() > 0); }
        assert(Seq::<char>::empty() != "wav"@) by { assert("wav"@.len() > 0); }
        assert(Seq::<char>::empty() != "ogg"@) by { assert("ogg"@.len() > 0); }
        assert(Seq::<char>::empty() != "txt"@) by { assert("txt"@.len() > 0); }
        assert(Seq::<char>::empty() != "xml"@) by { assert("xml"@.len() > 0); }
        assert(Seq::<char>::empty() != "pdf"@) by { assert("pdf"@.len() > 0); }
    }
}

/// The content type served for a path: by its extension, compared without
/// regard to the case of letters; a path without an extension is served as
/// `application/octet-stream`.  (Every table entry is ASCII, so lowering
/// only the ASCII capitals decides the same as full lowercasing.)
pub open spec fn content_type_of(path: Seq<char>, style: PathStyle) -> &'static str {
    match path_extension(path, style) {
        Some(e) => content_type_for_extension(ascii_lowercase(e)),
        None => content_type_for_extension(Seq::empty()),
    }
}

proof fn lemma_last_segment_plain(s: Seq<char>, style: PathStyle)
    requires
        forall|i: int| 0 <= i < s.len() ==> !is_separator(style, s[i]),
    ensures
        last_segment(s, style) == s,
    decreases s.len(),
{
    if s.len() > 0 {
        lemma_last_segment_plain(s.drop_last(), style);
        assert(s.drop_last().push(s.last()) =~= s);
    }
}

proof fn lemma_last_dot_before(stem: Seq<char>, ext: Seq<char>)
    requires
        forall|i: int| 0 <= i < ext.len() ==> ext[i] != '.',
    ensures
        last_index_of(stem + seq!['.'] + ext, '.') == Some(stem.len() as int),
    decreases ext.len(),
{
    let p = stem + seq!['.'] + ext;
    if ext.len() == 0 {
        assert(p.last() == '.');
    } else {
        lemma_last_dot_before(stem, ext.drop_last());
        assert(p.drop_last() =~= stem + seq!['.'] + ext.drop_last());
    }
}

proof fn lemma_no_dot(name: Seq<char>)
    requires
        forall|i: int| 0 <= i < name.len() ==> name[i] != '.',
    ensures
        last_index_of(name, '.') is None,
    decreases name.len(),
{
    if name.len() > 0 {
        lemma_no_dot(name.drop_last());
    }
}

/// A file is served by its extension, whatever its name: `<stem>.<ext>`
/// gets the type of `<ext>` with ASCII capitals made small (so `photo.JPG`
/// and `photo.jpg` are both served as `image/jpeg`), and a name without a
/// dot gets `application/octet-stream`.
pub proof fn lemma_content_type_by_extension(stem: Seq<char>, ext: Seq<char>, style: PathStyle)
    requires
        stem.len() > 0,
        forall|i: int| 0 <= i < stem.len() ==> !is_separator(style, stem[i]),
        !(style == PathStyle::Windows && stem.len() >= 2 && stem[1] == ':'),
    ensures
        ext.len() > 0 && (forall|i: int| 0 <= i < ext.len() ==> !is_separator(style, ext[i]) && ext[i]
            != '.') ==> content_type_of(stem + seq!['.'] + ext, style) == content_type_for_extension(
            ascii_lowercase(ext),
        ),
        (forall|i: int| 0 <= i < stem.len() ==> stem[i] != '.') ==> content_type_of(stem, style)
            == content_type_for_extension(Seq::empty()),
{
    if ext.len() > 0 && (forall|i: int| 0 <= i < ext.len() ==> !is_separator(style, ext[i])
        && ext[i] != '.') {
        let p = stem + seq!['.'] + ext;
        assert(!has_drive(p, style)) by {
            if stem.len() == 1 {
                assert(p[1] == '.');
            } else {
                assert(p[1] == stem[1]);
            }
        }
        assert forall|i: int| 0 <= i < p.len() implies !is_separator(style, p[i]) by {
            if i < stem.len() {
                assert(p[i] == stem[i]);
            } else if i > stem.len() {
                assert(p[i] == ext[i - stem.len() - 1]);
            }
        }
        lemma_last_segment_plain(p, style);
        assert(p.last() == ext.last());
        assert(p.len() >= 3);
        assert(file_name(p, style) == Some(p));
        lemma_last_dot_before(stem, ext);
        assert(p.skip(stem.len() + 1int) =~= ext);
    }
    if forall|i: int| 0 <= i < stem.len() ==> stem[i] != '.' {
        assert(!has_drive(stem, style));
        lemma_last_segment_plain(stem, style);
        lemma_no_dot(stem);
        if stem == seq!['.'] {
            assert(stem[0] == '.');
        }
        if stem == seq!['.', '.'] {
            assert(stem[0] == '.');
        }
        assert(file_name(stem, style) == Some(stem));
    }
}

fn is_word(e: &[char], w: &str) -> (b: bool)
    ensures
        b == (e@ == w@),
{
    let wc = chars_of(w);
    let b = e.len() == wc.len() && starts_with_chars(e, wc.as_slice());
    proof {
        if b {
            assert(e@ =~= wc@);
        }
        if e@ == w@ {
            assert(e@.take(wc@.len() as int) =~= e@);
        }
    }
    b
}

fn content_type_for_chars(e: &[char]) -> (r: &'static str)
    ensures
        r == content_type_for_extension(e@),
{
    if is_word(e, "html") || is_word(e, "htm") {
        "text/html; charset=utf-8"
    } else if is_word(e, "css") {
        "text/css; charset=utf-8"
    } else if is_word(e, "js") {
        "application/javascript; charset=utf-8"
    } else if is_word(e, "json") {
        "application/json; charset=utf-8"
    } else if is_word(e, "png") {
        "image/png"
    } else if is_word(e, "jpg") || is_word(e, "jpeg") {
        "image/jpeg"
    } else if is_word(e, "gif") {
        "image/gif"
    } else if is_word(e, "svg") {
        "image/svg+xml"
    } else if is_word(e, "webp") {
        "image/webp"
    } else if is_word(e, "ico") {
        "image/x-icon"
    } else if is_word(e, "woff") {
        "font/woff"
    } else if is_word(e, "woff2") {
        "font/woff2"
    } else if is_word(e, "ttf") {
        "font/ttf"
    } else if is_word(e, "otf") {
        "font/otf"
    } else if is_word(e, "mp4") {
        "video/mp4"
    } else if is_word(e, "webm") {
        "video/webm"
    } else if is_word(e, "mp3") {
        "audio/mpeg"
    } else if is_word(e, "wav") {
        "audio/wav"
    } else if is_word(e, "ogg") {
        "audio/ogg"
    } else if is_word(e, "txt") {
        "text/plain; charset=utf-8"
    } else if is_word(e, "xml") {
        "application/xml; charset=utf-8"
    } else if is_word(e, "pdf") {
        "application/pdf"
    } else {
        "application/octet-stream"
    }
}

/// The MIME content type for a file, by its extension.
pub fn get_content_type(path: &str, style: PathStyle) -> (r: &'static str)
    ensures
        r == content_type_of(path@, style),
{
    let p = chars_of(path);
    match extension_chars(p.as_slice(), style) {
        Some(e) => {
            let lower = ascii_lowercase_chars(e.as_slice());
            content_type_for_chars(lower.as_slice())
        },
        None => {
            let empty: Vec<char> = Vec::new();
            assert(empty@ =~= Seq::<char>::empty());
            content_type_for_chars(empty.as_slice())
        },
    }
}

// ---------------------------------------------------------------------------
// Request paths
// ---------------------------------------------------------------------------

/// Why a requested path is refused before it is looked up.
#[derive(Debug, Clone, Copy, PartialEq, Eq, Structural)]
pub enum RequestPathError {
    /// The decoded path contains `..`.
    Traversal,
    /// The decoded path starts with a separator or a drive letter.
    Absolute,
}

impl RequestPathError {
    /// The message the server reports for the refusal.
    pub fn message(&self) -> (s: &'static str)
        ensures
            s == (match *self {
                RequestPathError::Traversal => "Path traversal attempt detected",
                RequestPathError::Absolute => "Absolute paths not allowed",
            }),
    {
        match self {
            RequestPathError::Traversal => "Path traversal attempt detected",
            RequestPathError::Absolute => "Absolute paths not allowed",
        }
    }
}

/// What becomes of a requested path: it is decoded; a decoded path that
/// contains `..` is refused as traversal; one that starts with `/` or `\`,
/// or whose second character is `:`, is refused as absolute; any other is
/// accepted, to be looked up under the served directory.
pub open spec fn check_request_path_spec(requested: Seq<char>) -> Result<Seq<char>, RequestPathError> {
    let d = url_decode(requested);
    if has_substring(d, ".."@) {
        Err(RequestPathError::Traversal)
    } else if starts_with(d, "/"@) || starts_with(d, "\\"@) {
        Err(RequestPathError::Absolute)
    } else if d.len() >= 2 && d[1] == ':' {
        Err(RequestPathError::Absolute)
    } else {
        Ok(d)
    }
}

/// Decodes a requested path and checks it before it is looked up.
pub fn check_request_path(requested: &str) -> (r: Result<String, RequestPathError>)
    ensures
        match r {
            Ok(d) => check_request_path_spec(requested@) == Ok::<Seq<char>, RequestPathError>(d@),
            Err(e) => check_request_path_spec(requested@) == Err::<Seq<char>, RequestPathError>(e),
        },
{
    let decoded = urlencoding_decode(requested);
    let d = chars_of(decoded.as_str());
    let dots = chars_of("..");
    if contains_chars(d.as_slice(), dots.as_slice()) {
        return Err(RequestPathError::Traversal);
    }
    let slash = chars_of("/");
    let backslash = chars_of("\\");
    if starts_with_chars(d.as_slice(), slash.as_slice()) || starts_with_chars(
        d.as_slice(),
        backslash.as_slice(),
    ) {
        return Err(RequestPathError::Absolute);
    }
    if d.len() >= 2 && d[1] == ':' {
        return Err(RequestPathError::Absolute);
    }
    Ok(decoded)
}

/// An accepted request path never leads out of the served directory by a
/// `..` component, and is never absolute.
pub proof fn lemma_accepted_paths_stay_inside(requested: Seq<char>)
    ensures
        check_request_path_spec(requested) matches Ok(d) ==> {
            &&& !has_substring(d, ".."@)
            &&& !starts_with(d, "/"@)
            &&& !starts_with(d, "\\"@)
            &&& !(d.len() >= 2 && d[1] == ':')
        },
{
}

/// The file a request URL asks for: the URL path without its leading
/// slashes, or `index.html` when nothing is left.
pub open spec fn request_target_spec(url_path: Seq<char>) -> Seq<char>
    decreases url_path.len(),
{
    if url_path.len() > 0 && url_path[0] == '/' {
        request_target_spec(url_path.drop_first())
    } else if url_path.len() == 0 {
        "index.html"@
    } else {
        url_path
    }
}

/// The target of a request is the URL path with its leading slashes
/// removed, every other character kept as it is; a path of slashes only
/// asks for `index.html`.
pub proof fn lemma_request_target_keeps_path(url_path: Seq<char>, k: int)
    requires
        0 <= k <= url_path.len(),
        forall|i: int| 0 <= i < k ==> url_path[i] == '/',
        k < url_path.len() ==> url_path[k] != '/',
    ensures
        k < url_path.len() ==> request_target_spec(url_path) == url_path.skip(k),
        k == url_path.len() ==> request_target_spec(url_path) == "index.html"@,
    decreases k,
{
    if k > 0 {
        lemma_request_target_keeps_path(url_path.drop_first(), k - 1);
        assert(url_path.drop_first().skip(k - 1) =~= url_path.skip(k));
    } else {
        assert(url_path.skip(0) =~= url_path);
    }
}

/// The file a request URL asks for (see [`request_target_spec`]).
pub fn request_target(url_path: &str) -> (r: String)
    ensures
        r@ == request_target_spec(url_path@),
{
    let v = chars_of(url_path);
    let mut i: usize = 0;
    assert(v@.skip(0) =~= v@);
    while i < v.len() && v[i] == '/'
        invariant
            i <= v.len(),
            request_target_spec(v@) == request_target_spec(v@.skip(i as int)),
        decreases v.len() - i,
    {
        assert(v@.skip(i as int).drop_first() =~= v@.skip(i + 1));
        i = i + 1;
    }
    if i == v.len() {
        assert(v@.skip(i as int).len() == 0);
        return "index.html".to_owned();
    }
    let mut out: Vec<char> = Vec::new();
    let mut k: usize = i;
    while k < v.len()
        invariant
            i <= k <= v.len(),
            out@ == v@.subrange(i as int, k as int),
        decreases v.len() - k,
    {
        out.push(v[k]);
        assert(v@.subrange(i as int, k + 1) =~= v@.subrange(i as int, k as int).push(v@[k as int]));
        k = k + 1;
    }
    assert(out@ =~= v@.skip(i as int));
    string_of(out.as_slice())
}

/// A path without the extended-length prefix `\\?\` that Windows puts in
/// front of canonical paths.
pub open spec fn strip_windows_prefix_spec(path: Seq<char>) -> Seq<char> {
    if starts_with(path, "\\\\?\\"@) {
        path.skip(4)
    } else {
        path
    }
}

/// Removes the extended-length prefix `\\?\` from a path, if it has one.
pub fn strip_windows_prefix(path: &str) -> (r: String)
    ensures
        r@ == strip_windows_prefix_spec(path@),
{
    let v = chars_of(path);
    let prefix = chars_of("\\\\?\\");
    if starts_with_chars(v.as_slice(), prefix.as_slice()) {
        proof {
            reveal_strlit("\\\\?\\");
        }
        let mut out: Vec<char> = Vec::new();
        let mut k: usize = 4;
        while k < v.len()
            invariant
                4 <= k <= v.len(),
                out@ == v@.subrange(4, k as int),
            decreases v.len() - k,
        {
            out.push(v[k]);
            assert(v@.subrange(4, k + 1) =~= v@.subrange(4, k as int).push(v@[k as int]));
            k = k + 1;
        }
        assert(out@ =~= v@.skip(4));
        string_of(out.as_slice())
    } else {
        path.to_owned()
    }
}

// ---------------------------------------------------------------------------
// Server addresses
// ---------------------------------------------------------------------------

/// The base URL of the local server on `port`.
pub open spec fn server_url_spec(port: u16) -> Seq<char> {
    "http://127.0.0.1:"@ + decimal(port as nat)
}

/// A local file server: the directory it serves and the port it listens on.
pub struct LocalServer {
    /// Directory that files are served from.
    pub root_dir: String,
    /// Port on 127.0.0.1.
    pub port: u16,
}

impl LocalServer {
    /// A server for `root_dir` on `port`.
    pub fn new(root_dir: String, port: u16) -> (s: LocalServer)
        ensures
            s.root_dir == root_dir,
            s.port == port,
    {
        LocalServer { root_dir, port }
    }

    /// The server's base URL, `http://127.0.0.1:<port>`.
    pub fn url(&self) -> (u: String)
        ensures
            u@ == server_url_spec(self.port),
    {
        let mut v: Vec<char> = Vec::new();
        append_str(&mut v, "http://127.0.0.1:");
        push_decimal(&mut v, self.port as u64);
        string_of(v.as_slice())
    }

    /// The URL of one file, `http://127.0.0.1:<port>/<filename>`.
    pub fn file_url(&self, filename: &str) -> (u: String)
        ensures
            u@ == server_url_spec(self.port) + seq!['/'] + filename@,
    {
        let mut v: Vec<char> = Vec::new();
        append_str(&mut v, "http://127.0.0.1:");
        push_decimal(&mut v, self.port as u64);
        v.push('/');
        append_str(&mut v, filename);
        assert(v@ =~= server_url_spec(self.port) + seq!['/'] + filename@);
        string_of(v.as_slice())
    }
}

} // verus!
