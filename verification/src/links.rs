//! Meeting links hidden in event text: scanners that find the first
//! conferencing link of each provider in a description.

use vstd::prelude::*;

use crate::decimal::{chars_to_string, is_digit};

verus! {

/// Whether `c` may stand in a host label: a letter, digit, underscore or
/// hyphen.
pub open spec fn word_char(c: char) -> bool {
    (48 <= c as u32 && c as u32 <= 57) || (65 <= c as u32 && c as u32 <= 90) || (97 <= c as u32
        && c as u32 <= 122) || c == '_' || c == '-'
}

/// Whether `c` may stand in a meeting password: a letter, digit or dot.
pub open spec fn pwd_char(c: char) -> bool {
    (48 <= c as u32 && c as u32 <= 57) || (65 <= c as u32 && c as u32 <= 90) || (97 <= c as u32
        && c as u32 <= 122) || c == '.'
}

/// The end of the run of characters satisfying `kind` from `i`: digits,
/// label characters or password characters.
pub open spec fn run_end(s: Seq<char>, i: int, kind: int) -> int
    decreases s.len() - i,
    when 0 <= i <= s.len()
{
    if i >= s.len() {
        i
    } else if (kind == 0 && !is_digit(s[i])) || (kind == 1 && !word_char(s[i])) || (kind == 2
        && !pwd_char(s[i])) {
        i
    } else {
        run_end(s, i + 1, kind)
    }
}

/// A run stays within the text and past its start.
proof fn lemma_run_end_bounds(s: Seq<char>, i: int, kind: int)
    requires
        0 <= i <= s.len(),
    ensures
        i <= run_end(s, i, kind) <= s.len(),
    decreases s.len() - i,
{
    if i < s.len() && !((kind == 0 && !is_digit(s[i])) || (kind == 1 && !word_char(s[i])) || (kind
        == 2 && !pwd_char(s[i]))) {
        lemma_run_end_bounds(s, i + 1, kind);
    }
}

/// Scans the run of digit, label or password characters from `i`.
#[verifier::loop_isolation(false)]
fn run_end_exec(s: &str, i: usize, kind: u8) -> (r: usize)
    requires
        i <= s@.len(),
        kind == 0 || kind == 1 || kind == 2,
    ensures
        r == run_end(s@, i as int, kind as int),
        i <= r <= s@.len(),
{
    proof {
        lemma_run_end_bounds(s@, i as int, kind as int);
    }
    let n = s.unicode_len();
    let mut j: usize = i;
    while j < n
        invariant
            i <= j <= n,
            n == s@.len(),
            run_end(s@, i as int, kind as int) == run_end(s@, j as int, kind as int),
        decreases n - j,
    {
        let c = s.get_char(j);
        let cu = c as u32;
        let alnum = (48 <= cu && cu <= 57) || (65 <= cu && cu <= 90) || (97 <= cu && cu <= 122);
        let keep = if kind == 0 {
            48 <= cu && cu <= 57
        } else if kind == 1 {
            alnum || c == '_' || c == '-'
        } else {
            alnum || c == '.'
        };
        if !keep {
            return j;
        }
        j = j + 1;
    }
    n
}

/// Whether the text carries `pat` starting at `p`.
pub open spec fn lit_at(s: Seq<char>, p: int, pat: Seq<char>) -> bool {
    0 <= p && p + pat.len() <= s.len() && s.subrange(p, p + pat.len()) == pat
}

/// Does `pat` stand at `p`?
#[verifier::loop_isolation(false)]
pub(crate) fn lit_at_exec(s: &str, p: usize, pat: &str) -> (r: bool)
    requires
        p <= s@.len(),
    ensures
        r == lit_at(s@, p as int, pat@),
{
    let plen = pat.unicode_len();
    let n = s.unicode_len();
    if n - p < plen {
        return false;
    }
    let mut k: usize = 0;
    while k < plen
        invariant
            k <= plen,
            forall|j: int| 0 <= j < k ==> s@[p + j] == pat@[j],
        decreases plen - k,
    {
        if s.get_char(p + k) != pat.get_char(k) {
            proof {
                assert(s@.subrange(p as int, p + plen)[k as int] != pat@[k as int]);
            }
            return false;
        }
        k = k + 1;
    }
    proof {
        assert(s@.subrange(p as int, p + plen) =~= pat@);
    }
    true
}

/// Whether `c` ends a link: the ASCII whitespace characters.
pub open spec fn is_whitespace_char(c: char) -> bool {
    c == ' ' || c == '\t' || c == '\n' || c == '\r' || c == '\x0b' || c == '\x0c'
}

/// The first position at or after `i` that holds whitespace, or the end.
pub open spec fn nonspace_end(s: Seq<char>, i: int) -> int
    decreases s.len() - i,
    when 0 <= i <= s.len()
{
    if i >= s.len() {
        s.len() as int
    } else if is_whitespace_char(s[i]) {
        i
    } else {
        nonspace_end(s, i + 1)
    }
}

/// The run of non-whitespace stays within the text and past its start.
proof fn lemma_nonspace_end_bounds(s: Seq<char>, i: int)
    requires
        0 <= i <= s.len(),
    ensures
        i <= nonspace_end(s, i) <= s.len(),
    decreases s.len() - i,
{
    if i < s.len() && !is_whitespace_char(s[i]) {
        lemma_nonspace_end_bounds(s, i + 1);
    }
}

/// Scans for the first whitespace at or after `i`.
#[verifier::loop_isolation(false)]
fn nonspace_end_exec(s: &str, i: usize) -> (r: usize)
    requires
        i <= s@.len(),
    ensures
        r == nonspace_end(s@, i as int),
        i <= r <= s@.len(),
{
    proof {
        lemma_nonspace_end_bounds(s@, i as int);
    }
    let n = s.unicode_len();
    let mut j: usize = i;
    while j < n
        invariant
            i <= j <= n,
            n == s@.len(),
            nonspace_end(s@, i as int) == nonspace_end(s@, j as int),
        decreases n - j,
    {
        let c = s.get_char(j);
        if c == ' ' || c == '\t' || c == '\n' || c == '\r' || c == '\x0b' || c == '\x0c' {
            return j;
        }
        j = j + 1;
    }
    n
}

/// The first position at or after `from` where `pat` stands, or the end of
/// the text when it stands nowhere.
pub open spec fn find_lit(s: Seq<char>, pat: Seq<char>, from: int) -> int
    decreases s.len() - from,
    when 0 <= from <= s.len()
{
    if lit_at(s, from, pat) {
        from
    } else if from >= s.len() {
        s.len() as int
    } else {
        find_lit(s, pat, from + 1)
    }
}

/// The found position lies between `from` and the end; where it lies before
/// the end, `pat` stands there and nowhere earlier.
pub proof fn lemma_find_lit_bounds(s: Seq<char>, pat: Seq<char>, from: int)
    requires
        0 <= from <= s.len(),
    ensures
        from <= find_lit(s, pat, from) <= s.len(),
        find_lit(s, pat, from) < s.len() ==> lit_at(s, find_lit(s, pat, from), pat),
        forall|q: int| from <= q < find_lit(s, pat, from) ==> !lit_at(s, q, pat),
    decreases s.len() - from,
{
    if !lit_at(s, from, pat) && from < s.len() {
        lemma_find_lit_bounds(s, pat, from + 1);
    }
}

/// Scans for the first stand of `pat` at or after `from`.
#[verifier::loop_isolation(false)]
pub(crate) fn find_lit_exec(s: &str, pat: &str, from: usize) -> (r: usize)
    requires
        from <= s@.len(),
    ensures
        r == find_lit(s@, pat@, from as int),
        from <= r <= s@.len(),
{
    proof {
        lemma_find_lit_bounds(s@, pat@, from as int);
    }
    let n = s.unicode_len();
    let mut p: usize = from;
    while p < n
        invariant
            from <= p <= n,
            n == s@.len(),
            find_lit(s@, pat@, from as int) == find_lit(s@, pat@, p as int),
        decreases n - p,
    {
        if lit_at_exec(s, p, pat) {
            return p;
        }
        p = p + 1;
    }
    n
}

/// The password capture of a zoom link, right after the meeting id: the
/// password tag and at least one password character.
pub open spec fn zoom_pwd_at(s: Seq<char>, i: int) -> Option<(int, int)> {
    if lit_at(s, i, "?pwd="@) {
        let ps = i + "?pwd="@.len();
        let pe = run_end(s, ps, 2);
        if pe > ps {
            Some((ps, pe))
        } else {
            None
        }
    } else {
        None
    }
}

/// The captures of a zoom link whose host text stands at `q`: the digit run
/// of the meeting id after the join kind, and an optional password.
pub open spec fn zoom_parse_from(s: Seq<char>, q: int) -> Option<(int, int, Option<(int, int)>)> {
    if lit_at(s, q, "zoom.us/"@) {
        let k = q + "zoom.us/"@.len();
        let ds = if k + 1 < s.len() && s[k] == 'j' && s[k + 1] == '/' {
            Some(k + 2)
        } else if k + 1 < s.len() && s[k] == 'w' && s[k + 1] == '/' {
            Some(k + 2)
        } else if k + 2 < s.len() && s[k] == 'w' && s[k + 1] == 'c' && s[k + 2] == '/' {
            Some(k + 3)
        } else {
            None
        };
        match ds {
            Some(ds) => {
                let de = run_end(s, ds, 0);
                if de > ds {
                    Some((ds, de, zoom_pwd_at(s, de)))
                } else {
                    None
                }
            },
            None => None,
        }
    } else {
        None
    }
}

/// The captures of a zoom link standing at `p`: the scheme, an optional host
/// label before the zoom host, the join kind, the meeting id and an optional
/// password. A candidate with a label is preferred, as the host is read left
/// to right.
pub open spec fn zoom_match_at(s: Seq<char>, p: int) -> Option<(int, int, Option<(int, int)>)> {
    if lit_at(s, p, "https://"@) {
        let q0 = p + "https://"@.len();
        let we = run_end(s, q0, 1);
        if we > q0 && we < s.len() && s[we] == '.' && zoom_parse_from(s, we + 1) is Some {
            zoom_parse_from(s, we + 1)
        } else {
            zoom_parse_from(s, q0)
        }
    } else {
        None
    }
}

/// The canonical join link built from the captures: the fixed join host, the
/// meeting id, and the password when one was captured.
pub open spec fn zoom_link_text(s: Seq<char>, caps: (int, int, Option<(int, int)>)) -> Seq<char> {
    let base = "https://zoom.us/j/"@ + s.subrange(caps.0, caps.1);
    match caps.2 {
        Some(pw) => base + "?pwd="@ + s.subrange(pw.0, pw.1),
        None => base,
    }
}

/// Reads the zoom captures at host text `q`, as `zoom_parse_from` has them.
fn zoom_parse_from_exec(s: &str, q: usize) -> (r: Option<(usize, usize, Option<(usize, usize)>)>)
    requires
        q <= s@.len(),
    ensures
        r is Some <==> zoom_parse_from(s@, q as int) is Some,
        r matches Some(c) ==> ({
            let sc = zoom_parse_from(s@, q as int)->0;
            &&& c.0 == sc.0
            &&& c.1 == sc.1
            &&& match (c.2, sc.2) {
                (Some(a), Some(b)) => a.0 == b.0 && a.1 == b.1,
                (None, None) => true,
                _ => false,
            }
            &&& c.0 <= c.1 <= s@.len()
            &&& (c.2 matches Some(a) ==> a.0 <= a.1 <= s@.len())
        }),
{
    let n = s.unicode_len();
    if !lit_at_exec(s, q, "zoom.us/") {
        return None;
    }
    let zlen = "zoom.us/".unicode_len();
    let k = q + zlen;
    let ds: usize = if k < n && s.get_char(k) == 'j' && k + 1 < n && s.get_char(k + 1) == '/' {
        k + 2
    } else if k < n && s.get_char(k) == 'w' && k + 1 < n && s.get_char(k + 1) == '/' {
        k + 2
    } else if k < n && s.get_char(k) == 'w' && k + 1 < n && s.get_char(k + 1) == 'c' && k + 2 < n
        && s.get_char(k + 2) == '/' {
        k + 3
    } else {
        return None;
    };
    let de = run_end_exec(s, ds, 0);
    if de == ds {
        return None;
    }
    if lit_at_exec(s, de, "?pwd=") {
        let taglen = "?pwd=".unicode_len();
        let ps = de + taglen;
        let pe = run_end_exec(s, ps, 2);
        if pe > ps {
            return Some((ds, de, Some((ps, pe))));
        }
    }
    Some((ds, de, None))
}

/// Reads the zoom captures at `p`, as `zoom_match_at` has them.
fn zoom_match_at_exec(s: &str, p: usize) -> (r: Option<(usize, usize, Option<(usize, usize)>)>)
    requires
        p <= s@.len(),
    ensures
        r is Some <==> zoom_match_at(s@, p as int) is Some,
        r matches Some(c) ==> ({
            let sc = zoom_match_at(s@, p as int)->0;
            &&& c.0 == sc.0
            &&& c.1 == sc.1
            &&& match (c.2, sc.2) {
                (Some(a), Some(b)) => a.0 == b.0 && a.1 == b.1,
                (None, None) => true,
                _ => false,
            }
            &&& c.0 <= c.1 <= s@.len()
            &&& (c.2 matches Some(a) ==> a.0 <= a.1 <= s@.len())
        }),
{
    let n = s.unicode_len();
    if !lit_at_exec(s, p, "https://") {
        return None;
    }
    let q0 = p + "https://".unicode_len();
    let we = run_end_exec(s, q0, 1);
    if we > q0 && we < n && s.get_char(we) == '.' {
        let with_label = zoom_parse_from_exec(s, we + 1);
        if with_label.is_some() {
            return with_label;
        }
    }
    zoom_parse_from_exec(s, q0)
}

/// Pushes the characters of `s` between `from` and `to`.
#[verifier::loop_isolation(false)]
fn push_range(v: &mut Vec<char>, s: &str, from: usize, to: usize)
    requires
        from <= to <= s@.len(),
    ensures
        final(v)@ == old(v)@ + s@.subrange(from as int, to as int),
{
    let ghost v0 = v@;
    proof {
        assert(v@ =~= v0 + s@.subrange(from as int, from as int));
    }
    let mut k: usize = from;
    while k < to
        invariant
            from <= k <= to,
            v@ == v0 + s@.subrange(from as int, k as int),
        decreases to - k,
    {
        v.push(s.get_char(k));
        proof {
            assert(v@ =~= v0 + s@.subrange(from as int, k + 1));
        }
        k = k + 1;
    }
}

/// Finds the first zoom meeting link of the text and rebuilds it in the
/// canonical join form: the fixed join host, the captured meeting id, and the
/// captured password when there is one.
#[verifier::loop_isolation(false)]
pub fn extract_zoom_link(description: &str) -> (r: Option<String>)
    ensures
        r is Some <==> exists|p: int| zoom_match_at(description@, p) is Some,
        r matches Some(link) ==> exists|p: int|
            {
                &&& #[trigger] zoom_match_at(description@, p) is Some
                &&& forall|q: int| 0 <= q < p ==> zoom_match_at(description@, q) is None
                &&& link@ == zoom_link_text(description@, zoom_match_at(description@, p)->0)
            },
{
    let n = description.unicode_len();
    let mut p: usize = 0;
    while p < n
        invariant
            p <= n,
            n == description@.len(),
            forall|q: int| 0 <= q < p ==> zoom_match_at(description@, q) is None,
        decreases n - p,
    {
        match zoom_match_at_exec(description, p) {
            Some(caps) => {
                let mut v: Vec<char> = Vec::new();
                let base = "https://zoom.us/j/";
                proof {
                    reveal_strlit("https://zoom.us/j/");
                    assert(v@ =~= Seq::<char>::empty());
                }
                push_range(&mut v, base, 0, base.unicode_len());
                proof {
                    assert(base@.subrange(0, base@.len() as int) =~= base@);
                    assert(v@ =~= "https://zoom.us/j/"@);
                }
                push_range(&mut v, description, caps.0, caps.1);
                match caps.2 {
                    Some(pw) => {
                        let tag = "?pwd=";
                        proof {
                            reveal_strlit("?pwd=");
                        }
                        let ghost before = v@;
                        push_range(&mut v, tag, 0, tag.unicode_len());
                        proof {
                            assert(tag@.subrange(0, tag@.len() as int) =~= tag@);
                        }
                        push_range(&mut v, description, pw.0, pw.1);
                        proof {
                            assert(v@ =~= zoom_link_text(
                                description@,
                                zoom_match_at(description@, p as int)->0,
                            ));
                        }
                    },
                    None => {
                        proof {
                            assert(v@ =~= zoom_link_text(
                                description@,
                                zoom_match_at(description@, p as int)->0,
                            ));
                        }
                    },
                }
                let link = chars_to_string(v);
                return Some(link);
            },
            None => {},
        }
        p = p + 1;
    }
    proof {
        reveal_strlit("https://");
        if exists|p2: int| zoom_match_at(description@, p2) is Some {
            let w = choose|w: int| zoom_match_at(description@, w) is Some;
            assert(lit_at(description@, w, "https://"@));
            assert(zoom_match_at(description@, w) is None);
        }
    }
    None
}

/// Whether the teams meeting-link prefix stands at `p`, followed by at least
/// one non-whitespace character.
pub open spec fn teams_match_at(s: Seq<char>, p: int) -> bool {
    let pre = "https://teams.microsoft.com/l/meetup-join/"@;
    &&& 0 <= p
    &&& p + pre.len() < s.len()
    &&& s.subrange(p, p + pre.len()) == pre
    &&& !is_whitespace_char(s[p + pre.len()])
}

/// Does the teams prefix stand at `p` with a link character after it?
#[verifier::loop_isolation(false)]
fn teams_match_at_exec(s: &str, p: usize) -> (r: bool)
    requires
        p <= s@.len(),
    ensures
        r == teams_match_at(s@, p as int),
{
    let pre = "https://teams.microsoft.com/l/meetup-join/";
    proof {
        reveal_strlit("https://teams.microsoft.com/l/meetup-join/");
    }
    let plen = pre.unicode_len();
    let n = s.unicode_len();
    if n - p <= plen {
        return false;
    }
    let mut k: usize = 0;
    while k < plen
        invariant
            k <= plen,
            forall|j: int| 0 <= j < k ==> s@[p + j] == pre@[j],
        decreases plen - k,
    {
        if s.get_char(p + k) != pre.get_char(k) {
            proof {
                assert(s@.subrange(p as int, p + plen)[k as int] != pre@[k as int]);
            }
            return false;
        }
        k = k + 1;
    }
    proof {
        assert(s@.subrange(p as int, p + plen) =~= pre@);
    }
    let c = s.get_char(p + plen);
    !(c == ' ' || c == '\t' || c == '\n' || c == '\r' || c == '\x0b' || c == '\x0c')
}

/// Finds the first teams meeting link of the text: the fixed meeting-join
/// prefix and everything after it up to the next whitespace.
#[verifier::loop_isolation(false)]
pub fn extract_teams_link(description: &str) -> (r: Option<String>)
    ensures
        r is Some <==> exists|p: int| teams_match_at(description@, p),
        r matches Some(link) ==> exists|p: int|
            {
                &&& #[trigger] teams_match_at(description@, p)
                &&& forall|q: int| 0 <= q < p ==> !teams_match_at(description@, q)
                &&& link@ == description@.subrange(
                    p,
                    nonspace_end(description@, p + "https://teams.microsoft.com/l/meetup-join/"@.len()),
                )
            },
{
    let pre = "https://teams.microsoft.com/l/meetup-join/";
    proof {
        reveal_strlit("https://teams.microsoft.com/l/meetup-join/");
    }
    let plen = pre.unicode_len();
    let n = description.unicode_len();
    let mut p: usize = 0;
    while p < n
        invariant
            p <= n,
            n == description@.len(),
            plen == "https://teams.microsoft.com/l/meetup-join/"@.len(),
            forall|q: int| 0 <= q < p ==> !teams_match_at(description@, q),
        decreases n - p,
    {
        if teams_match_at_exec(description, p) {
            let e = nonspace_end_exec(description, p + plen);
            proof {
                lemma_nonspace_end_bounds(description@, p + plen);
            }
            let link = description.substring_char(p, e);
            proof {
                assert(teams_match_at(description@, p as int));
            }
            return Some(link.to_owned());
        }
        p = p + 1;
    }
    proof {
        if exists|p2: int| teams_match_at(description@, p2) {
            let w = choose|w: int| teams_match_at(description@, w);
            assert(!teams_match_at(description@, w));
        }
    }
    None
}

} // verus!
