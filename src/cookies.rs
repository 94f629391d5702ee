//! Finding the session token in a `Cookie` request header.
use vstd::prelude::*;

use crate::kv::chars_of;

verus! {

/// The characters `char::is_whitespace` accepts: Unicode `White_Space`.
pub open spec fn is_white_space(c: char) -> bool {
    ('\u{9}' <= c && c <= '\u{d}') || c == ' ' || c == '\u{85}' || c == '\u{a0}' || c
        == '\u{1680}' || ('\u{2000}' <= c && c <= '\u{200a}') || c == '\u{2028}' || c
        == '\u{2029}' || c == '\u{202f}' || c == '\u{205f}' || c == '\u{3000}'
}

/// Whether `c` is white space, as `char::is_whitespace` says.
pub fn white_space(c: char) -> (r: bool)
    ensures
        r == is_white_space(c),
{
    ('\u{9}' <= c && c <= '\u{d}') || c == ' ' || c == '\u{85}' || c == '\u{a0}' || c
        == '\u{1680}' || ('\u{2000}' <= c && c <= '\u{200a}') || c == '\u{2028}' || c
        == '\u{2029}' || c == '\u{202f}' || c == '\u{205f}' || c == '\u{3000}'
}

/// `s` cut at every `sep`, empty pieces kept: one piece more than there are
/// separators.
pub open spec fn split_on(s: Seq<char>, sep: char) -> Seq<Seq<char>>
    decreases s.len(),
{
    if s.len() == 0 {
        seq![Seq::empty()]
    } else {
        let rest = split_on(s.drop_last(), sep);
        if s.last() == sep {
            rest.push(Seq::empty())
        } else {
            rest.update(rest.len() - 1, rest.last().push(s.last()))
        }
    }
}

/// `s` without leading white space.
pub open spec fn trim_start(s: Seq<char>) -> Seq<char>
    decreases s.len(),
{
    if s.len() > 0 && is_white_space(s[0]) {
        trim_start(s.drop_first())
    } else {
        s
    }
}

/// `s` without trailing white space.
pub open spec fn trim_end(s: Seq<char>) -> Seq<char>
    decreases s.len(),
{
    if s.len() > 0 && is_white_space(s.last()) {
        trim_end(s.drop_last())
    } else {
        s
    }
}

/// `s` without leading or trailing white space.
pub open spec fn trim(s: Seq<char>) -> Seq<char> {
    trim_end(trim_start(s))
}

/// The name of the cookie that carries the session token.
pub open spec fn session_cookie_name() -> Seq<char> {
    seq!['s', 'e', 's', 's', 'i', 'o', 'n', 'I', 'd']
}

/// The session token one `name=value` piece of the header gives, if it names
/// the session cookie: name and value are the first two `=`-separated fields,
/// trimmed.
pub open spec fn session_value(piece: Seq<char>) -> Option<Seq<char>> {
    let fields = split_on(piece, '=');
    if fields.len() >= 2 && trim(fields[0]) == session_cookie_name() {
        Some(trim(fields[1]))
    } else {
        None
    }
}

/// The session token of the last of `pieces` that names the session cookie.
pub open spec fn last_session_value(pieces: Seq<Seq<char>>) -> Option<Seq<char>>
    decreases pieces.len(),
{
    if pieces.len() == 0 {
        None
    } else {
        match session_value(pieces.last()) {
            Some(v) => Some(v),
            None => last_session_value(pieces.drop_last()),
        }
    }
}

/// The session token a `Cookie` header carries: the value of its last
/// `sessionId` cookie.
pub open spec fn session_cookie(header: Seq<char>) -> Option<Seq<char>> {
    last_session_value(split_on(header, ';'))
}

proof fn lemma_trim_start_step(s: Seq<char>, i: int)
    requires
        0 <= i < s.len(),
        is_white_space(s[i]),
    ensures
        trim_start(s.subrange(i, s.len() as int)) == trim_start(s.subrange(i + 1, s.len() as int)),
{
    assert(s.subrange(i, s.len() as int).drop_first() =~= s.subrange(i + 1, s.len() as int));
}

proof fn lemma_trim_end_step(s: Seq<char>, j: int)
    requires
        0 < j <= s.len(),
        is_white_space(s[j - 1]),
    ensures
        trim_end(s.subrange(0, j)) == trim_end(s.subrange(0, j - 1)),
{
    assert(s.subrange(0, j).drop_last() =~= s.subrange(0, j - 1));
}

/// The bounds of `hv[a..b]` with white space trimmed from both ends.
fn trimmed_bounds(hv: &Vec<char>, a: usize, b: usize) -> (r: (usize, usize))
    requires
        a <= b <= hv@.len(),
    ensures
        a <= r.0 <= r.1 <= b,
        hv@.subrange(r.0 as int, r.1 as int) == trim(hv@.subrange(a as int, b as int)),
{
    let ghost s = hv@.subrange(a as int, b as int);
    let mut i: usize = a;
    assert(s.subrange(0, s.len() as int) =~= s);
    while i < b && white_space(hv[i])
        invariant
            a <= i <= b <= hv@.len(),
            s == hv@.subrange(a as int, b as int),
            trim_start(s) == trim_start(s.subrange(i - a, s.len() as int)),
        decreases b - i,
    {
        proof {
            lemma_trim_start_step(s, i - a);
        }
        i += 1;
    }
    let ghost t = s.subrange(i - a, s.len() as int);
    assert(trim_start(t) == t);
    assert(t =~= hv@.subrange(i as int, b as int));
    let mut j: usize = b;
    assert(t.subrange(0, t.len() as int) =~= t);
    while j > i && white_space(hv[j - 1])
        invariant
            a <= i <= j <= b <= hv@.len(),
            t == hv@.subrange(i as int, b as int),
            trim_end(t) == trim_end(t.subrange(0, j - i)),
        decreases j - i,
    {
        proof {
            lemma_trim_end_step(t, j - i);
        }
        j -= 1;
    }
    assert(t.subrange(0, j - i) =~= hv@.subrange(i as int, j as int));
    (i, j)
}


/// `h[start..end]` is a piece of the header whose `=` count (up to two) is
/// `eqs`, whose first field ends at `f0` once an `=` is seen, and whose
/// second field ends at `f1` once a second `=` is seen.
spec fn fields_tracked(h: Seq<char>, start: int, end: int, eqs: u8, f0: int, f1: int) -> bool {
    let fields = split_on(h.subrange(start, end), '=');
    &&& 0 <= start <= end <= h.len()
    &&& eqs <= 2
    &&& eqs == 0 ==> fields.len() == 1 && fields[0] == h.subrange(start, end)
    &&& eqs >= 1 ==> start <= f0 < end && fields.len() >= 2 && fields[0] == h.subrange(start, f0)
    &&& eqs == 1 ==> fields.len() == 2 && fields[1] == h.subrange(f0 + 1, end)
    &&& eqs == 2 ==> f0 < f1 < end && fields.len() >= 3 && fields[1] == h.subrange(f0 + 1, f1)
}

/// The characters that `bounds` delimit in `h`.
spec fn bounded(h: Seq<char>, bounds: Option<(usize, usize)>) -> Option<Seq<char>> {
    match bounds {
        Some((a, b)) => Some(h.subrange(a as int, b as int)),
        None => None,
    }
}

spec fn bounds_in(h: Seq<char>, bounds: Option<(usize, usize)>) -> bool {
    bounds matches Some((a, b)) ==> a <= b <= h.len()
}

proof fn lemma_split_push(s: Seq<char>, c: char, sep: char)
    ensures
        split_on(s.push(c), sep) == if c == sep {
            split_on(s, sep).push(Seq::empty())
        } else {
            split_on(s, sep).update(
                split_on(s, sep).len() - 1,
                split_on(s, sep).last().push(c),
            )
        },
{
    assert(s.push(c).drop_last() =~= s);
}

proof fn lemma_split_nonempty(s: Seq<char>, sep: char)
    ensures
        split_on(s, sep).len() >= 1,
    decreases s.len(),
{
    if s.len() > 0 {
        lemma_split_nonempty(s.drop_last(), sep);
    }
}

/// Whether `hv[a..b]` is the session cookie's name.
fn is_session_name(hv: &Vec<char>, a: usize, b: usize) -> (r: bool)
    requires
        a <= b <= hv@.len(),
    ensures
        r == (hv@.subrange(a as int, b as int) == session_cookie_name()),
{
    let r = b - a == 9 && hv[a] == 's' && hv[a + 1] == 'e' && hv[a + 2] == 's' && hv[a + 3] == 's'
        && hv[a + 4] == 'i' && hv[a + 5] == 'o' && hv[a + 6] == 'n' && hv[a + 7] == 'I' && hv[a
        + 8] == 'd';
    assert(session_cookie_name().len() == 9);
    if r {
        assert(hv@.subrange(a as int, b as int) =~= session_cookie_name());
    } else if b - a == 9 {
        proof {
            let w = hv@.subrange(a as int, b as int);
            let nm = session_cookie_name();
            if w == nm {
                assert(w[0] == hv@[a as int] && w[1] == hv@[a + 1] && w[2] == hv@[a + 2] && w[3]
                    == hv@[a + 3] && w[4] == hv@[a + 4] && w[5] == hv@[a + 5] && w[6] == hv@[a
                    + 6] && w[7] == hv@[a + 7] && w[8] == hv@[a + 8]);
                assert(nm[0] == 's' && nm[1] == 'e' && nm[2] == 's' && nm[3] == 's' && nm[4]
                    == 'i' && nm[5] == 'o' && nm[6] == 'n' && nm[7] == 'I' && nm[8] == 'd');
            }
        }
    }
    r
}

/// Ends the piece `hv[start..end]`: its session token where it names the
/// session cookie, else `found`.
fn finish_piece(
    hv: &Vec<char>,
    start: usize,
    end: usize,
    eqs: u8,
    f0: usize,
    f1: usize,
    found: Option<(usize, usize)>,
) -> (r: Option<(usize, usize)>)
    requires
        fields_tracked(hv@, start as int, end as int, eqs, f0 as int, f1 as int),
        bounds_in(hv@, found),
    ensures
        bounds_in(hv@, r),
        bounded(hv@, r) == match session_value(hv@.subrange(start as int, end as int)) {
            Some(v) => Some(v),
            None => bounded(hv@, found),
        },
{
    if eqs == 0 {
        return found;
    }
    let value_end = if eqs == 1 {
        end
    } else {
        f1
    };
    let (na, nb) = trimmed_bounds(hv, start, f0);
    if is_session_name(hv, na, nb) {
        let (va, vb) = trimmed_bounds(hv, f0 + 1, value_end);
        Some((va, vb))
    } else {
        found
    }
}

/// The session token a `Cookie` header carries: the value of its last
/// `sessionId` cookie, white space trimmed. Pieces without `=` are passed over.
pub fn session_id_from_cookies(header: &str) -> (r: Option<String>)
    ensures
        match r {
            Some(v) => session_cookie(header@) == Some(v@),
            None => session_cookie(header@) is None,
        },
{
    let hv = chars_of(header);
    let n = hv.len();
    let mut found: Option<(usize, usize)> = None;
    let mut start: usize = 0;
    let mut eqs: u8 = 0;
    let mut f0: usize = 0;
    let mut f1: usize = 0;
    let mut i: usize = 0;
    assert(hv@.take(0) =~= Seq::<char>::empty());
    assert(hv@.subrange(0, 0) =~= Seq::<char>::empty());
    while i < n
        invariant
            n == hv@.len(),
            hv@ == header@,
            i <= n,
            start <= i,
            fields_tracked(hv@, start as int, i as int, eqs, f0 as int, f1 as int),
            split_on(hv@.take(i as int), ';').len() >= 1,
            split_on(hv@.take(i as int), ';').last() == hv@.subrange(start as int, i as int),
            bounds_in(hv@, found),
            bounded(hv@, found) == last_session_value(
                split_on(hv@.take(i as int), ';').drop_last(),
            ),
        decreases n - i,
    {
        let c = hv[i];
        let ghost before = hv@.take(i as int);
        let ghost piece = hv@.subrange(start as int, i as int);
        proof {
            assert(hv@.take(i + 1) =~= before.push(c));
            lemma_split_push(before, c, ';');
            lemma_split_push(piece, c, '=');
            lemma_split_nonempty(piece, '=');
            assert(hv@.subrange(start as int, i + 1) =~= piece.push(c));
            assert(hv@.subrange(i + 1, i + 1) =~= Seq::<char>::empty());
        }
        if c == ';' {
            found = finish_piece(&hv, start, i, eqs, f0, f1, found);
            proof {
                let parts = split_on(before, ';');
                assert(split_on(hv@.take(i + 1), ';').drop_last() =~= parts);
                assert(parts =~= parts.drop_last().push(piece));
            }
            start = i + 1;
            eqs = 0;
        } else {
            if c == '=' {
                if eqs == 0 {
                    f0 = i;
                    eqs = 1;
                } else if eqs == 1 {
                    f1 = i;
                    eqs = 2;
                }
            }
            proof {
                let parts = split_on(before, ';');
                assert(split_on(hv@.take(i + 1), ';').drop_last() =~= parts.drop_last());
                let fields = split_on(piece, '=');
                let nf = split_on(piece.push(c), '=');
                assert(hv@.subrange(start as int, i + 1) =~= piece.push(c));
                if eqs >= 1 {
                    assert(nf[0] == fields[0]);
                }
                if c != '=' && eqs == 1 {
                    assert(hv@.subrange(f0 + 1, i + 1) =~= hv@.subrange(f0 + 1, i as int).push(c));
                    assert(nf[1] == fields[1].push(c));
                }
                if eqs == 2 {
                    assert(nf[1] == fields[1]);
                }
            }
        }
        i += 1;
    }
    proof {
        let parts = split_on(hv@.take(n as int), ';');
        assert(hv@.take(n as int) =~= hv@);
        assert(parts =~= parts.drop_last().push(hv@.subrange(start as int, n as int)));
    }
    found = finish_piece(&hv, start, n, eqs, f0, f1, found);
    match found {
        Some((a, b)) => Some(String::from_str(header.substring_char(a, b))),
        None => None,
    }
}

} // verus!
