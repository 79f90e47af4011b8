//! The catalogue of built-in shaders: their names are the keys of the
//! built-in configuration, a JSON object, listed in order.

use vstd::prelude::*;
use crate::text::{append_str, chars_of, decimal, push_decimal, string_of};

verus! {

/// The keys of the top-level object of a JSON text, as `serde_json` reads
/// it; empty when the text is not JSON or its top level is not an object.
pub uninterp spec fn json_object_keys(text: Seq<char>) -> Seq<Seq<char>>;

/// Calls `serde_json::from_str::<serde_json::Value>` and lists the keys of
/// the resulting object.  The contract names the result, since which keys a
/// text holds is `serde_json`'s reading, and states that no key comes twice
/// (the keys of a `serde_json::Map`); the order in which the map hands them
/// out is not relied on.
#[verifier::external_body]
fn object_keys(text: &str) -> (keys: Vec<String>)
    ensures
        keys@.map_values(|k: String| k@) == json_object_keys(text@),
        keys@.map_values(|k: String| k@).no_duplicates(),
{
    let value: serde_json::Value = serde_json::from_str(text).unwrap_or_default();
    match value.as_object() {
        Some(map) => map.keys().cloned().collect(),
        None => Vec::new(),
    }
}

/// Lexicographic order of character sequences by code point (the order of
/// `String`, whose bytes are UTF-8).
pub open spec fn text_le(a: Seq<char>, b: Seq<char>) -> bool
    decreases a.len(),
{
    if a.len() == 0 {
        true
    } else if b.len() == 0 {
        false
    } else if a[0] != b[0] {
        (a[0] as int) < (b[0] as int)
    } else {
        text_le(a.drop_first(), b.drop_first())
    }
}

/// The names are in ascending order.
pub open spec fn is_sorted(names: Seq<Seq<char>>) -> bool {
    forall|i: int, j: int| 0 <= i < j < names.len() ==> text_le(names[i], names[j])
}

/// `text_le` is transitive.
pub proof fn lemma_text_le_transitive(a: Seq<char>, b: Seq<char>, c: Seq<char>)
    requires
        text_le(a, b),
        text_le(b, c),
    ensures
        text_le(a, c),
    decreases a.len(),
{
    if a.len() > 0 && b.len() > 0 && c.len() > 0 && a[0] == b[0] && b[0] == c[0] {
        lemma_text_le_transitive(a.drop_first(), b.drop_first(), c.drop_first());
    }
}

/// `text_le` is total.
pub proof fn lemma_text_le_total(a: Seq<char>, b: Seq<char>)
    ensures
        text_le(a, b) || text_le(b, a),
    decreases a.len(),
{
    if a.len() > 0 && b.len() > 0 && a[0] == b[0] {
        lemma_text_le_total(a.drop_first(), b.drop_first());
    }
}

fn text_le_exec(a: &[char], b: &[char]) -> (r: bool)
    ensures
        r == text_le(a@, b@),
{
    let mut i: usize = 0;
    assert(a@.skip(0) =~= a@);
    assert(b@.skip(0) =~= b@);
    while i < a.len() && i < b.len() && a[i] == b[i]
        invariant
            i <= a.len(),
            i <= b.len(),
            text_le(a@, b@) == text_le(a@.skip(i as int), b@.skip(i as int)),
        decreases a.len() - i,
    {
        assert(a@.skip(i as int).drop_first() =~= a@.skip(i + 1));
        assert(b@.skip(i as int).drop_first() =~= b@.skip(i + 1));
        i = i + 1;
    }
    let ghost sa = a@.skip(i as int);
    let ghost sb = b@.skip(i as int);
    if i == a.len() {
        assert(sa.len() == 0);
        true
    } else if i == b.len() {
        assert(sa.len() > 0 && sb.len() == 0);
        false
    } else {
        assert(sa[0] == a@[i as int] && sb[0] == b@[i as int]);
        assert(sa[0] != sb[0]);
        let r = a[i] < b[i];
        assert(r == ((sa[0] as int) < (sb[0] as int)));
        r
    }
}

/// The names are in strictly ascending order: sorted, and none twice.
pub open spec fn is_strictly_sorted(names: Seq<Seq<char>>) -> bool {
    forall|i: int, j: int| 0 <= i < j < names.len() ==> text_le(names[i], names[j]) && names[i] != names[j]
}

/// The views of a list of strings.
pub open spec fn views(names: Seq<String>) -> Seq<Seq<char>> {
    names.map_values(|k: String| k@)
}

proof fn lemma_views_insert(s: Seq<String>, p: int, x: String)
    requires
        0 <= p <= s.len(),
    ensures
        views(s.insert(p, x)) == views(s).insert(p, x@),
{
    assert(views(s.insert(p, x)) =~= views(s).insert(p, x@));
}

proof fn lemma_multiset_insert(s: Seq<Seq<char>>, p: int, x: Seq<char>)
    requires
        0 <= p <= s.len(),
    ensures
        s.insert(p, x).to_multiset() == s.to_multiset().insert(x),
{
    broadcast use vstd::seq_lib::group_to_multiset_ensures;
    broadcast use vstd::multiset::group_multiset_axioms;

    let t = s.insert(p, x);
    assert(t.remove(p) =~= s);
    assert(t[p] == x);
    assert(t.to_multiset().remove(x) =~= s.to_multiset());
    assert(t.to_multiset().count(x) > 0) by {
        assert(t.contains(x));
    }
    assert(t.to_multiset() =~= s.to_multiset().insert(x));
}

/// The names of the built-in shaders: the keys of the configuration
/// object, each once, in ascending order.
pub fn list_builtins(config_json: &str) -> (names: Vec<String>)
    ensures
        is_strictly_sorted(views(names@)),
        views(names@).to_multiset() == json_object_keys(config_json@).to_multiset(),
{
    let keys = object_keys(config_json);
    assert(views(keys@) == json_object_keys(config_json@));
    let mut out: Vec<String> = Vec::new();
    let mut i: usize = 0;
    assert(views(out@) =~= views(keys@.take(0)));
    while i < keys.len()
        invariant
            i <= keys.len(),
            is_sorted(views(out@)),
            views(out@).to_multiset() == views(keys@.take(i as int)).to_multiset(),
        decreases keys.len() - i,
    {
        let key = keys[i].clone();
        let kc = chars_of(keys[i].as_str());
        let ghost kv = keys@[i as int]@;
        let mut p: usize = 0;
        while p < out.len() && text_le_exec(chars_of(out[p].as_str()).as_slice(), kc.as_slice())
            invariant
                p <= out.len(),
                forall|k: int| 0 <= k < p ==> text_le(#[trigger] views(out@)[k], kv),
                kc@ == kv,
            decreases out.len() - p,
        {
            p = p + 1;
        }
        let ghost before = out@;
        proof {
            if p < before.len() {
                assert(!text_le(views(before)[p as int], kv));
                lemma_text_le_total(views(before)[p as int], kv);
                assert forall|k: int| p <= k < before.len() implies text_le(kv, #[trigger] views(before)[k]) by {
                    if k > p {
                        lemma_text_le_transitive(kv, views(before)[p as int], views(before)[k]);
                    }
                }
            }
        }
        out.insert(p, key);
        proof {
            lemma_views_insert(before, p as int, keys@[i as int]);
            lemma_multiset_insert(views(before), p as int, kv);
            let vt = views(keys@.take(i as int));
            assert(views(keys@.take(i + 1)) =~= vt.push(kv));
            assert(vt.push(kv) =~= vt.insert(vt.len() as int, kv));
            lemma_multiset_insert(vt, vt.len() as int, kv);
            let now = views(out@);
            assert forall|a: int, b: int| 0 <= a < b < now.len() implies text_le(now[a], now[b]) by {
                if a < p && b < p {
                } else if a < p && b == p {
                } else if a < p && b > p {
                    assert(now[b] == views(before)[b - 1]);
                } else if a == p {
                    assert(now[b] == views(before)[b - 1]);
                } else {
                    assert(now[a] == views(before)[a - 1]);
                    assert(now[b] == views(before)[b - 1]);
                }
            }
        }
        i = i + 1;
    }
    assert(keys@.take(keys.len() as int) =~= keys@);
    proof {
        broadcast use vstd::multiset::group_multiset_axioms;

        let o = views(out@);
        let k = views(keys@);
        k.lemma_multiset_has_no_duplicates();
        assert forall|x: Seq<char>| o.to_multiset().contains(x) implies o.to_multiset().count(x)
            == 1 by {
            assert(k.to_multiset().contains(x));
        }
        o.lemma_multiset_has_no_duplicates_conv();
        assert forall|i: int, j: int| 0 <= i < j < o.len() implies text_le(o[i], o[j]) && o[i]
            != o[j] by {
            assert(o.no_duplicates());
        }
    }
    out
}

/// The string at `field` in the entry `name` of the top-level object of a
/// JSON text, as `serde_json` reads it; none when the text is not JSON, has
/// no such entry, or the entry has no such field or one that is not a
/// string.
pub uninterp spec fn json_entry_string(text: Seq<char>, name: Seq<char>, field: Seq<char>) -> Option<
    Seq<char>,
>;

/// Calls `serde_json::from_str::<serde_json::Value>`, then `Value::get` for
/// the entry and for its field, then `Value::as_str`.  The contract only
/// names the result: which string a text holds there is `serde_json`'s
/// reading.
#[verifier::external_body]
fn entry_string(text: &str, name: &str, field: &str) -> (r: Option<String>)
    ensures
        match r {
            Some(v) => json_entry_string(text@, name@, field@) == Some(v@),
            None => json_entry_string(text@, name@, field@) is None,
        },
{
    let value: serde_json::Value = serde_json::from_str(text).ok()?;
    let found = value.get(name)?.get(field)?.as_str()?;
    Some(found.to_string())
}

/// The name of the configuration field of texture channel `k`.
pub open spec fn channel_field(k: nat) -> Seq<char> {
    "channel"@ + decimal(k)
}

/// The texture channels of a built-in shader: for each channel `k` from 0
/// to 3, the string at `channel<k>` of the shader's configuration entry, if
/// there is one.
pub fn builtin_channels(config_json: &str, name: &str) -> (r: Vec<Option<String>>)
    ensures
        r.len() == 4,
        forall|k: int|
            0 <= k < 4 ==> match #[trigger] r@[k] {
                Some(v) => json_entry_string(config_json@, name@, channel_field(k as nat)) == Some(
                    v@,
                ),
                None => json_entry_string(config_json@, name@, channel_field(k as nat)) is None,
            },
{
    let mut r: Vec<Option<String>> = Vec::new();
    let mut k: usize = 0;
    while k < 4
        invariant
            k <= 4,
            r.len() == k,
            forall|j: int|
                0 <= j < k ==> match #[trigger] r@[j] {
                    Some(v) => json_entry_string(config_json@, name@, channel_field(j as nat))
                        == Some(v@),
                    None => json_entry_string(config_json@, name@, channel_field(j as nat)) is None,
                },
        decreases 4 - k,
    {
        let mut f: Vec<char> = Vec::new();
        append_str(&mut f, "channel");
        push_decimal(&mut f, k as u64);
        let field = string_of(f.as_slice());
        let v = entry_string(config_json, name, field.as_str());
        r.push(v);
        k = k + 1;
    }
    r
}

} // verus!
