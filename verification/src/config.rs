//! Where running instances are recorded: one file per display, named
//! `display_<index>.json`, in the instance directory.

use vstd::prelude::*;
use crate::server::{
    file_name, has_drive, is_separator, last_index_of, last_segment, separator,
    starts_with_drive, strip_drive, PathStyle,
};
use crate::text::{
    append_chars, append_str, chars_of, decimal, ends_with, ends_with_chars, lemma_decimal_facts,
    lemma_parse_u32_decimal, parse_u32, parse_u32_chars, push_decimal, starts_with,
    starts_with_chars, string_of,
};

verus! {

/// The separator a platform puts between path components.
pub open spec fn main_separator(style: PathStyle) -> char {
    match style {
        PathStyle::Unix => '/',
        PathStyle::Windows => '\\',
    }
}

/// Whether a name that is appended replaces the path: a name with a root
/// on Unix; on Windows a name with a drive prefix or one that starts with
/// `\\` (a UNC, device or verbatim prefix).
pub open spec fn replaces_path(name: Seq<char>, style: PathStyle) -> bool {
    match style {
        PathStyle::Unix => name.len() > 0 && name[0] == '/',
        PathStyle::Windows => has_drive(name, style) || (name.len() >= 2 && name[0] == '\\'
            && name[1] == '\\'),
    }
}

/// The drive prefix of a path on Windows (`C:`), or nothing.
pub open spec fn drive_prefix(s: Seq<char>, style: PathStyle) -> Seq<char> {
    if has_drive(s, style) {
        s.take(2)
    } else {
        Seq::empty()
    }
}

/// A path with a name appended (`PathBuf::join`): a name that replaces the
/// path is taken as it is; a name with a root but no prefix keeps only the
/// path's drive; otherwise the platform's separator is put between them,
/// unless the path is empty, already ends with a separator, or is a bare
/// drive (`C:`).
pub open spec fn path_join(base: Seq<char>, name: Seq<char>, style: PathStyle) -> Seq<char> {
    if replaces_path(name, style) {
        name
    } else if name.len() > 0 && is_separator(style, name[0]) {
        drive_prefix(base, style) + name
    } else if base.len() == 0 || is_separator(style, base.last()) || (has_drive(base, style)
        && base.len() == 2) {
        base + name
    } else {
        base + seq![main_separator(style)] + name
    }
}

/// Appends `name` to the path `base` (see [`path_join`]).
pub fn join_path(base: &str, name: &str, style: PathStyle) -> (r: String)
    ensures
        r@ == path_join(base@, name@, style),
{
    let b = chars_of(base);
    let n = chars_of(name);
    let replaces = match style {
        PathStyle::Unix => n.len() > 0 && n[0] == '/',
        PathStyle::Windows => starts_with_drive(n.as_slice(), style) || (n.len() >= 2 && n[0]
            == '\\' && n[1] == '\\'),
    };
    let mut v: Vec<char> = Vec::new();
    if replaces {
        append_chars(&mut v, n.as_slice());
    } else if n.len() > 0 && separator(style, n[0]) {
        if starts_with_drive(b.as_slice(), style) {
            v.push(b[0]);
            v.push(b[1]);
            assert(v@ =~= b@.take(2));
        }
        append_chars(&mut v, n.as_slice());
    } else if b.len() == 0 || separator(style, b[b.len() - 1]) || (starts_with_drive(
        b.as_slice(),
        style,
    ) && b.len() == 2) {
        append_chars(&mut v, b.as_slice());
        append_chars(&mut v, n.as_slice());
    } else {
        append_chars(&mut v, b.as_slice());
        let sep = match style {
            PathStyle::Unix => '/',
            PathStyle::Windows => '\\',
        };
        v.push(sep);
        append_chars(&mut v, n.as_slice());
    }
    string_of(v.as_slice())
}

/// The name of the instance file of a display.
pub open spec fn instance_file_name(display_index: u32) -> Seq<char> {
    "display_"@ + decimal(display_index as nat) + ".json"@
}

/// A directory entry is an instance file when its name starts with
/// `display_` and ends with `.json`.
pub open spec fn is_instance_file_name_spec(name: Seq<char>) -> bool {
    starts_with(name, "display_"@) && ends_with(name, ".json"@)
}

/// The stem of a file name (`Path::file_stem`): the name without its
/// extension.
pub open spec fn file_stem(name: Seq<char>) -> Seq<char> {
    match last_index_of(name, '.') {
        Some(i) => if i == 0 {
            name
        } else {
            name.take(i)
        },
        None => name,
    }
}

/// The display an instance file belongs to: the number after `display_`
/// in the file's stem.
pub open spec fn instance_index_of_name(name: Seq<char>) -> Option<u32> {
    let stem = file_stem(name);
    if starts_with(stem, "display_"@) {
        parse_u32(stem.skip("display_"@.len() as int))
    } else {
        None
    }
}

/// Application configuration
#[derive(Debug, Clone)]
pub struct Config {
    /// Directory for storing instance tracking files
    pub instance_dir: String,
    /// The path conventions of the platform
    pub path_style: PathStyle,
}

impl Config {
    /// The configuration whose instance directory is `wewa` inside the given
    /// temporary directory.
    pub fn in_temp_dir(temp_dir: &str, path_style: PathStyle) -> (c: Config)
        ensures
            c.instance_dir@ == path_join(temp_dir@, "wewa"@, path_style),
            c.path_style == path_style,
    {
        Config { instance_dir: join_path(temp_dir, "wewa", path_style), path_style }
    }

    /// Get the path to an instance file for a specific display
    pub fn instance_file_path(&self, display_index: u32) -> (p: String)
        ensures
            p@ == path_join(self.instance_dir@, instance_file_name(display_index), self.path_style),
    {
        let mut v: Vec<char> = Vec::new();
        append_str(&mut v, "display_");
        push_decimal(&mut v, display_index as u64);
        append_str(&mut v, ".json");
        let name = string_of(v.as_slice());
        join_path(self.instance_dir.as_str(), name.as_str(), self.path_style)
    }
}

/// Whether a directory entry's name is that of an instance file.
pub fn is_instance_file_name(name: &str) -> (b: bool)
    ensures
        b == is_instance_file_name_spec(name@),
{
    let n = chars_of(name);
    let prefix = chars_of("display_");
    let suffix = chars_of(".json");
    starts_with_chars(n.as_slice(), prefix.as_slice()) && ends_with_chars(
        n.as_slice(),
        suffix.as_slice(),
    )
}

fn last_dot_index(v: &[char], end: usize) -> (r: Option<usize>)
    requires
        end <= v.len(),
    ensures
        match r {
            Some(i) => i < end && last_index_of(v@.take(end as int), '.') == Some(i as int),
            None => last_index_of(v@.take(end as int), '.') is None,
        },
    decreases end,
{
    if end == 0 {
        return None;
    }
    assert(v@.take(end as int).drop_last() =~= v@.take(end - 1));
    if v[end - 1] == '.' {
        Some(end - 1)
    } else {
        last_dot_index(v, end - 1)
    }
}

/// The display an instance file belongs to, read from its file name (see
/// [`instance_index_of_name`]).
pub fn instance_index_from_file_name(name: &str) -> (r: Option<u32>)
    ensures
        r == instance_index_of_name(name@),
{
    let n = chars_of(name);
    assert(n@.take(n.len() as int) =~= n@);
    let stem_len: usize = match last_dot_index(n.as_slice(), n.len()) {
        Some(i) => if i == 0 {
            n.len()
        } else {
            i
        },
        None => n.len(),
    };
    let mut stem: Vec<char> = Vec::new();
    let mut k: usize = 0;
    while k < stem_len
        invariant
            k <= stem_len <= n.len(),
            stem@ == n@.take(k as int),
        decreases stem_len - k,
    {
        stem.push(n[k]);
        assert(n@.take(k + 1) =~= n@.take(k as int).push(n@[k as int]));
        k = k + 1;
    }
    assert(stem@ =~= file_stem(n@));
    let prefix = chars_of("display_");
    if !starts_with_chars(stem.as_slice(), prefix.as_slice()) {
        return None;
    }
    let mut digits: Vec<char> = Vec::new();
    let mut j: usize = prefix.len();
    while j < stem.len()
        invariant
            prefix.len() <= j <= stem.len(),
            digits@ == stem@.subrange(prefix@.len() as int, j as int),
        decreases stem.len() - j,
    {
        digits.push(stem[j]);
        assert(stem@.subrange(prefix@.len() as int, j + 1) =~= stem@.subrange(
            prefix@.len() as int,
            j as int,
        ).push(stem@[j as int]));
        j = j + 1;
    }
    assert(digits@ =~= stem@.skip(prefix@.len() as int));
    parse_u32_chars(digits.as_slice())
}

proof fn lemma_words()
    ensures
        "display_"@ == seq!['d', 'i', 's', 'p', 'l', 'a', 'y', '_'],
        ".json"@ == seq!['.', 'j', 's', 'o', 'n'],
{
    reveal_strlit("display_");
    reveal_strlit(".json");
    assert("display_"@ =~= seq!['d', 'i', 's', 'p', 'l', 'a', 'y', '_']);
    assert(".json"@ =~= seq!['.', 'j', 's', 'o', 'n']);
}

proof fn lemma_last_dot_of_instance_name(display_index: u32)
    ensures
        last_index_of(instance_file_name(display_index), '.') == Some(
            instance_file_name(display_index).len() - 5,
        ),
{
    lemma_words();
    reveal_with_fuel(last_index_of, 6);
    let s = instance_file_name(display_index);
    let n = s.len();
    assert(s[n - 1] == 'n');
    assert(s.drop_last()[n - 2] == 'o');
    assert(s.drop_last().drop_last()[n - 3] == 's');
    assert(s.drop_last().drop_last().drop_last()[n - 4] == 'j');
    assert(s.drop_last().drop_last().drop_last().drop_last()[n - 5] == '.');
}

/// The instance file of a display is recognised as an instance file, and
/// the display is read back from its name: what start writes, stop-all
/// finds and attributes to the right display.
pub proof fn lemma_instance_name_roundtrip(display_index: u32)
    ensures
        is_instance_file_name_spec(instance_file_name(display_index)),
        instance_index_of_name(instance_file_name(display_index)) == Some(display_index),
{
    lemma_words();
    lemma_decimal_facts(display_index as nat);
    lemma_parse_u32_decimal(display_index);
    let d = decimal(display_index as nat);
    let s = instance_file_name(display_index);
    assert(s.take(8) =~= "display_"@);
    assert(s.skip(s.len() - 5) =~= ".json"@);
    lemma_last_dot_of_instance_name(display_index);
    assert(file_stem(s) =~= "display_"@ + d);
    assert(file_stem(s).take(8) =~= "display_"@);
    assert(file_stem(s).skip(8) =~= d);
}

proof fn lemma_last_segment_of_join(base: Seq<char>, name: Seq<char>, style: PathStyle, c: char)
    requires
        is_separator(style, c),
        forall|i: int| 0 <= i < name.len() ==> !is_separator(style, name[i]),
    ensures
        last_segment(base + seq![c] + name, style) == name,
        last_segment(name, style) == name,
        base.len() > 0 && is_separator(style, base.last()) ==> last_segment(base + name, style)
            == name,
    decreases name.len(),
{
    if name.len() == 0 {
        assert(base + seq![c] + name =~= base.push(c));
        assert(base + name =~= base);
    } else {
        let shorter = name.drop_last();
        lemma_last_segment_of_join(base, shorter, style, c);
        assert((base + seq![c] + name).drop_last() =~= base + seq![c] + shorter);
        assert(name.drop_last() =~= shorter);
        assert((base + name).drop_last() =~= base + shorter);
        assert(shorter.push(name.last()) =~= name);
    }
}

/// The file name of a display's instance file path is the instance file
/// name, whatever the instance directory and the platform.
pub proof fn lemma_instance_path_file_name(dir: Seq<char>, display_index: u32, style: PathStyle)
    ensures
        file_name(path_join(dir, instance_file_name(display_index), style), style) == Some(
            instance_file_name(display_index),
        ),
{
    lemma_words();
    lemma_decimal_facts(display_index as nat);
    let name = instance_file_name(display_index);
    let d = decimal(display_index as nat);
    assert forall|i: int| 0 <= i < name.len() implies !is_separator(style, name[i]) by {
        if 8 <= i < 8 + d.len() {
            assert(name[i] == d[i - 8]);
            assert(crate::text::is_digit(d[i - 8]));
        }
    }
    assert(name[0] == 'd' && name[1] == 'i');
    assert(!replaces_path(name, style));
    let sep = main_separator(style);
    assert(is_separator(style, sep));
    let j = path_join(dir, name, style);
    let k = strip_drive(j, style);
    let rest = strip_drive(dir, style);
    lemma_last_segment_of_join(rest, name, style, sep);
    if dir.len() == 0 || is_separator(style, dir.last()) || (has_drive(dir, style) && dir.len()
        == 2) {
        assert(j == dir + name);
        if has_drive(dir, style) {
            assert(j[0] == dir[0] && j[1] == dir[1]);
            assert(k =~= rest + name);
            if dir.len() == 2 {
                assert(rest + name =~= name);
            } else {
                assert(rest.last() == dir.last());
            }
        } else if dir.len() >= 2 {
            assert(j[0] == dir[0] && j[1] == dir[1]);
            assert(k == j);
        } else if dir.len() == 1 {
            assert(j[1] == name[0]);
            assert(k == j);
        } else {
            assert(j =~= name);
            assert(k == j);
        }
    } else {
        assert(j == dir + seq![sep] + name);
        if has_drive(dir, style) {
            assert(j[0] == dir[0] && j[1] == dir[1]);
            assert(k =~= rest + seq![sep] + name);
        } else if dir.len() >= 2 {
            assert(j[0] == dir[0] && j[1] == dir[1]);
            assert(k == j);
        } else {
            assert(j[1] == sep);
            assert(k == j);
        }
    }
    assert(last_segment(k, style) == name);
    assert(k.last() == 'n');
    assert(name != seq!['.']);
    assert(name != seq!['.', '.']);
}

} // verus!
