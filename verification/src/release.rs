//! Line-oriented scan of a release-info payload. The payload is not parsed
//! as a document: the scan looks for the first line whose trimmed content
//! starts with the `"tag_name":` token, and extracts the quoted value after
//! it, dropping a trailing comma, the quotes, and a leading `v`. A payload
//! without such a line yields nothing, never an error.

use vstd::prelude::*;
use crate::text;

verus! {

pub open spec fn tag_token() -> Seq<char> {
    seq!['"', 't', 'a', 'g', '_', 'n', 'a', 'm', 'e', '"', ':']
}

/// The version a single line yields, if its trimmed content starts with the
/// tag token.
pub open spec fn tag_line_value(line: Seq<char>) -> Option<Seq<char>> {
    let t = text::trim_ws(line);
    if text::starts_with(t, tag_token()) {
        let rest = text::trim_ws(t.skip(11));
        let no_comma = text::strip_last(rest, ',');
        let no_open = text::strip_first(no_comma, '"');
        let no_quotes = text::strip_last(no_open, '"');
        Some(text::strip_first(no_quotes, 'v'))
    } else {
        None
    }
}

/// The value of the first line that yields one.
pub open spec fn first_tag(lines: Seq<Seq<char>>) -> Option<Seq<char>>
    decreases lines.len(),
{
    if lines.len() == 0 {
        None
    } else if tag_line_value(lines.first()) is Some {
        tag_line_value(lines.first())
    } else {
        first_tag(lines.drop_first())
    }
}

/// The version a whole payload yields, scanning its lines in order.
pub open spec fn tag_name_of(response: Seq<char>) -> Option<Seq<char>> {
    first_tag(text::split_on(response, '\n'))
}

/// Scans a payload for the release tag; `None` exactly when no line carries
/// the token.
pub fn parse_tag_name(response: &str) -> (r: Option<String>)
    ensures
        match r {
            Some(v) => tag_name_of(response@) == Some(v@),
            None => tag_name_of(response@) is None,
        },
{
    let lines = text::split_char(response, '\n');
    let ghost vs = text::views_of(lines@);
    let token: &str = "\"tag_name\":";
    proof {
        reveal_strlit("\"tag_name\":");
        assert(token@ =~= tag_token());
    }
    let mut i: usize = 0;
    assert(vs.skip(0) =~~= vs);
    while i < lines.len()
        invariant
            0 <= i <= lines.len(),
            vs == text::views_of(lines@),
            vs == text::split_on(response@, '\n'),
            vs.len() == lines@.len(),
            token@ == tag_token(),
            first_tag(vs) == first_tag(vs.skip(i as int)),
        decreases lines.len() - i,
    {
        let ghost pi = i as int;
        assert(vs.skip(pi).first() == vs[pi]);
        assert(vs.skip(pi).drop_first() =~~= vs.skip(pi + 1));
        assert(lines@[pi]@ == vs[pi]);
        let line: &str = lines[i].as_str();
        let t = text::trim_str(line);
        if text::starts_with_str(t, token) {
            let tn = t.unicode_len();
            let rest = t.substring_char(11, tn);
            assert(rest@ =~= t@.skip(11));
            let rest_t = text::trim_str(rest);
            let no_comma = text::strip_last_str(rest_t, ',');
            let no_open = text::strip_first_str(no_comma, '"');
            let no_quotes = text::strip_last_str(no_open, '"');
            let value = text::strip_first_str(no_quotes, 'v');
            assert(tag_line_value(vs[pi]) == Some(value@));
            assert(first_tag(vs.skip(pi)) == tag_line_value(vs[pi]));
            return Some(value.to_owned());
        }
        assert(tag_line_value(vs[pi]) is None);
        i = i + 1;
    }
    assert(vs.skip(lines@.len() as int) =~~= Seq::<Seq<char>>::empty());
    None
}

/// A version tag as the installer expects it: with a leading `v`, one being
/// added where the value lacks it.
pub open spec fn normalized_tag(v: Seq<char>) -> Seq<char> {
    if v.len() > 0 && v.first() == 'v' {
        v
    } else {
        seq!['v'] + v
    }
}

/// Prefixes a leading `v` onto a version value that lacks one.
pub fn normalize_version_tag(v: &str) -> (r: String)
    ensures
        r@ == normalized_tag(v@),
{
    let n = v.unicode_len();
    if n > 0 && v.get_char(0) == 'v' {
        v.to_owned()
    } else {
        let prefix: &str = "v";
        proof {
            reveal_strlit("v");
            assert(prefix@ =~= seq!['v']);
        }
        prefix.to_owned().concat(v)
    }
}

} // verus!
