//! Capture-interface names from the output of the USBPcap helper's
//! `--extcap-interfaces` listing.
//!
//! Each interface appears as a `value=\\.\<name>` token; the names are taken
//! with the pattern [`EXTCAP_VALUE_PATTERN`] and stripped of the `\\.\`
//! device-path prefix.

use vstd::prelude::*;

verus! {

/// Pattern whose first group is the value of one `value=` token.
pub const EXTCAP_VALUE_PATTERN: &'static str = "value=([^}]*)";

/// For a pattern and a text: `None` when the pattern does not compile, else
/// for each successive non-overlapping match the text of its first group, or
/// `None` where that group took no part in the match.
pub uninterp spec fn regex_first_groups(pattern: Seq<char>, text: Seq<char>) -> Option<Seq<Option<Seq<char>>>>;

pub open spec fn opt_text_view(o: Option<String>) -> Option<Seq<char>> {
    match o {
        Some(s) => Some(s@),
        None => None,
    }
}

pub open spec fn groups_view(g: Seq<Option<String>>) -> Seq<Option<Seq<char>>> {
    g.map_values(|o: Option<String>| opt_text_view(o))
}

pub open spec fn texts_view(v: Seq<String>) -> Seq<Seq<char>> {
    v.map_values(|s: String| s@)
}

/// Relies on `regex::Regex::new`, which compiles the pattern or fails, and on
/// `Regex::captures_iter`, which yields the successive non-overlapping matches
/// of the text; of each match, the text of group 1 when it took part.
#[verifier::external_body]
fn first_groups(pattern: &str, text: &str) -> (r: Option<Vec<Option<String>>>)
    ensures
        match r {
            Some(g) => regex_first_groups(pattern@, text@) == Some(groups_view(g@)),
            None => regex_first_groups(pattern@, text@) is None,
        },
{
    let re = regex::Regex::new(pattern).ok()?;
    Some(re.captures_iter(text).map(|c| c.get(1).map(|m| m.as_str().to_string())).collect())
}

/// The device-path prefix `\\.\`.
pub open spec fn device_path_prefix() -> Seq<char> {
    seq!['\\', '\\', '.', '\\']
}

/// A name with every leading `\\.\` removed.
pub open spec fn strip_device_prefix(s: Seq<char>) -> Seq<char>
    decreases s.len(),
{
    if s.len() >= 4 && s.subrange(0, 4) == device_path_prefix() {
        strip_device_prefix(s.subrange(4, s.len() as int))
    } else {
        s
    }
}

/// Device names from the captured groups, in order, skipping absent groups.
pub open spec fn device_names(groups: Seq<Option<Seq<char>>>) -> Seq<Seq<char>>
    decreases groups.len(),
{
    if groups.len() == 0 {
        seq![]
    } else {
        let rest = device_names(groups.drop_last());
        match groups.last() {
            Some(g) => rest.push(strip_device_prefix(g)),
            None => rest,
        }
    }
}

fn has_prefix_at(s: &str, n: usize, at: usize) -> (r: bool)
    requires
        n == s@.len(),
        at <= n,
    ensures
        r == (at + 4 <= n && s@.subrange(at as int, at + 4) == device_path_prefix()),
{
    if n - at < 4 {
        return false;
    }
    let r = s.get_char(at) == '\\' && s.get_char(at + 1) == '\\' && s.get_char(at + 2) == '.'
        && s.get_char(at + 3) == '\\';
    proof {
        let sub = s@.subrange(at as int, at + 4);
        if r {
            assert(sub =~= device_path_prefix());
        } else if sub == device_path_prefix() {
            assert(sub[0] == s@[at as int] && sub[1] == s@[at + 1]);
            assert(sub[2] == s@[at + 2] && sub[3] == s@[at + 3]);
        }
    }
    r
}

/// Removes every leading `\\.\` from a name.
pub fn strip_device_path(s: &str) -> (r: String)
    ensures
        r@ == strip_device_prefix(s@),
{
    let n = s.unicode_len();
    let mut start: usize = 0;
    assert(s@.subrange(0, n as int) =~= s@);
    while has_prefix_at(s, n, start)
        invariant
            n == s@.len(),
            start <= n,
            strip_device_prefix(s@.subrange(start as int, n as int)) == strip_device_prefix(s@),
        decreases n - start,
    {
        let ghost rest = s@.subrange(start as int, n as int);
        assert(rest.subrange(0, 4) =~= s@.subrange(start as int, start + 4));
        assert(rest.subrange(4, rest.len() as int) =~= s@.subrange(start + 4, n as int));
        start = start + 4;
    }
    proof {
        let rest = s@.subrange(start as int, n as int);
        if rest.len() >= 4 {
            assert(rest.subrange(0, 4) =~= s@.subrange(start as int, start + 4));
        }
    }
    s.substring_char(start, n).to_owned()
}

/// Device names from the groups a match of [`EXTCAP_VALUE_PATTERN`] captured.
pub fn device_names_from_groups(groups: Vec<Option<String>>) -> (r: Vec<String>)
    ensures
        texts_view(r@) == device_names(groups_view(groups@)),
{
    let mut out: Vec<String> = Vec::new();
    let mut i: usize = 0;
    while i < groups.len()
        invariant
            i <= groups.len(),
            texts_view(out@) == device_names(groups_view(groups@.take(i as int))),
        decreases groups.len() - i,
    {
        let ghost before = out@;
        assert(groups_view(groups@.take(i + 1)).drop_last() =~= groups_view(groups@.take(i as int)));
        assert(groups_view(groups@.take(i + 1)).last() == opt_text_view(groups@[i as int]));
        match &groups[i] {
            Some(g) => {
                let name = strip_device_path(g.as_str());
                out.push(name);
                assert(texts_view(out@) =~= texts_view(before).push(name@));
            },
            None => {},
        }
        i += 1;
    }
    assert(groups@.take(groups.len() as int) =~= groups@);
    out
}

/// Capture-interface names listed in the helper's `--extcap-interfaces`
/// output; none when the pattern cannot be compiled.
pub fn parse_devices_list(output: &str) -> (r: Vec<String>)
    ensures
        texts_view(r@) == match regex_first_groups(EXTCAP_VALUE_PATTERN@, output@) {
            Some(g) => device_names(g),
            None => Seq::empty(),
        },
{
    match first_groups(EXTCAP_VALUE_PATTERN, output) {
        Some(g) => device_names_from_groups(g),
        None => {
            let out: Vec<String> = Vec::new();
            assert(texts_view(out@) =~= Seq::<Seq<char>>::empty());
            out
        },
    }
}

} // verus!
