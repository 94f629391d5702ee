//! Fixed-width storage keys for post paths.
use vstd::prelude::*;

use crate::post_obj::PostError;

verus! {

/// Width of every storage key, and the longest path that can be stored.
pub const KEY_WIDTH: usize = 512;

/// The filler character that left-pads a path to the key width.
pub open spec fn pad_char() -> char {
    ' '
}

/// The characters a path may hold: ASCII letters and digits.
pub open spec fn is_path_char(c: char) -> bool {
    ('0' <= c && c <= '9') || ('a' <= c && c <= 'z') || ('A' <= c && c <= 'Z')
}

/// A path that can name a post: path characters only, no longer than a key.
pub open spec fn is_valid_path(p: Seq<char>) -> bool {
    &&& p.len() <= KEY_WIDTH
    &&& forall|i: int| 0 <= i < p.len() ==> #[trigger] is_path_char(p[i])
}

/// `n` filler characters.
pub open spec fn padding(n: nat) -> Seq<char> {
    Seq::new(n, |i: int| pad_char())
}

/// The key of `path` with `offset` trailing positions left out:
/// `KEY_WIDTH - len(path) - offset` filler characters followed by the path.
pub open spec fn encode(path: Seq<char>, offset: nat) -> Seq<char>
    recommends
        path.len() + offset <= KEY_WIDTH,
{
    padding((KEY_WIDTH - path.len() - offset) as nat) + path
}

/// Whether `key` is made of filler characters only (the key of the root).
pub open spec fn is_all_padding(key: Seq<char>) -> bool {
    forall|i: int| 0 <= i < key.len() ==> key[i] == pad_char()
}

/// `key` without its leading filler characters.
pub open spec fn strip_padding(key: Seq<char>) -> Seq<char>
    decreases key.len(),
{
    if key.len() > 0 && key[0] == pad_char() {
        strip_padding(key.drop_first())
    } else {
        key
    }
}

/// `key` is the exact key of a valid path: the path it holds after its
/// filler, padded to full width.
pub open spec fn is_post_key(key: Seq<char>) -> bool {
    is_valid_path(strip_padding(key)) && key == encode(strip_padding(key), 0)
}

proof fn lemma_strip_padded(n: nat, p: Seq<char>)
    requires
        is_valid_path(p),
    ensures
        strip_padding(padding(n) + p) == p,
    decreases n,
{
    if n == 0 {
        assert(padding(0) + p =~= p);
        if p.len() > 0 {
            lemma_path_char_not_pad(p[0]);
        }
    } else {
        assert((padding(n) + p).drop_first() =~= padding((n - 1) as nat) + p);
        lemma_strip_padded((n - 1) as nat, p);
    }
}

/// The exact key of a valid path holds that path after its filler.
pub proof fn lemma_post_key(p: Seq<char>)
    requires
        is_valid_path(p),
    ensures
        strip_padding(encode(p, 0)) == p,
        is_post_key(encode(p, 0)),
{
    lemma_strip_padded((KEY_WIDTH - p.len()) as nat, p);
}

/// The only post key made of filler alone is the root's.
pub proof fn lemma_all_padding_post_key(key: Seq<char>)
    requires
        is_post_key(key),
        is_all_padding(key),
    ensures
        key == encode(Seq::empty(), 0),
{
    let p = strip_padding(key);
    if p.len() > 0 {
        assert(key[KEY_WIDTH - p.len()] == p[0]);
        lemma_path_char_not_pad(p[0]);
    }
}

/// The storage key of `post_id` with `offset` trailing positions left out.
/// Offset 0 gives the exact key of a post; offset 1 gives the prefix shared by
/// the keys of its direct replies.
/// Fails with `PathTooLong` where the path and offset exceed the key width.
pub fn get_prefix(post_id: &str, offset: usize) -> (r: Result<String, PostError>)
    ensures
        r is Ok <==> post_id@.len() + offset <= KEY_WIDTH,
        r is Err ==> r == Err::<String, PostError>(PostError::PathTooLong),
        r matches Ok(key) ==> key@ == encode(post_id@, offset as nat),
{
    let n = post_id.unicode_len();
    if n > KEY_WIDTH || offset > KEY_WIDTH - n {
        return Err(PostError::PathTooLong);
    }
    let pads = KEY_WIDTH - n - offset;
    let mut key = String::new();
    let mut i: usize = 0;
    proof {
        reveal_strlit(" ");
    }
    while i < pads
        invariant
            i <= pads,
            key@ == padding(i as nat),
            " "@ == seq![pad_char()],
        decreases pads - i,
    {
        key.append(" ");
        i += 1;
        assert(key@ =~= padding(i as nat));
    }
    key.append(post_id);
    Ok(key)
}

/// Path characters are never the filler.
pub proof fn lemma_path_char_not_pad(c: char)
    requires
        is_path_char(c),
    ensures
        c != pad_char(),
{
}

/// Distinct valid paths have distinct exact keys.
pub proof fn lemma_encode_injective(a: Seq<char>, b: Seq<char>)
    requires
        is_valid_path(a),
        is_valid_path(b),
        a != b,
    ensures
        encode(a, 0) != encode(b, 0),
{
    let ea = encode(a, 0);
    let eb = encode(b, 0);
    if a.len() == b.len() {
        let pads = KEY_WIDTH - a.len();
        assert(ea.subrange(pads as int, KEY_WIDTH as int) =~= a);
        assert(eb.subrange(pads as int, KEY_WIDTH as int) =~= b);
    } else if a.len() < b.len() {
        let i = KEY_WIDTH - b.len();
        assert(is_path_char(b[0]));
        lemma_path_char_not_pad(b[0]);
        assert(eb[i as int] == b[0]);
        assert(ea[i as int] == pad_char());
    } else {
        let i = KEY_WIDTH - a.len();
        assert(is_path_char(a[0]));
        lemma_path_char_not_pad(a[0]);
        assert(ea[i as int] == a[0]);
        assert(eb[i as int] == pad_char());
    }
}

/// The reply scan of `a` matches exactly the exact keys of the paths one
/// character longer that extend `a`, and, for the root, the root itself.
pub proof fn lemma_reply_scan_exact(a: Seq<char>, s: Seq<char>)
    requires
        a.len() < KEY_WIDTH,
        is_valid_path(a),
        is_valid_path(s),
    ensures
        encode(a, 1).is_prefix_of(encode(s, 0)) <==> ((s.len() == a.len() + 1
            && a.is_prefix_of(s)) || (a.len() == 0 && s.len() == 0)),
{
    let p = encode(a, 1);
    let e = encode(s, 0);
    let k = KEY_WIDTH - 1 - a.len();
    assert(p.len() == KEY_WIDTH - 1);
    assert(e.len() == KEY_WIDTH);
    if s.len() == a.len() + 1 && a.is_prefix_of(s) {
        assert(e.subrange(0, p.len() as int) =~= p);
    } else if a.len() == 0 && s.len() == 0 {
        assert(e.subrange(0, p.len() as int) =~= p);
    } else if p.is_prefix_of(e) {
        assert(e.subrange(0, p.len() as int) == p);
        if s.len() <= a.len() {
            // position k holds a[0] in the scan key but filler in the exact key
            assert(a.len() > 0);
            assert(p[k as int] == a[0]);
            assert(e[k as int] == pad_char());
            lemma_path_char_not_pad(a[0]);
            assert(false);
        } else if s.len() >= a.len() + 2 {
            // the first character of s stands where the scan key has filler
            let i = KEY_WIDTH - s.len();
            assert(e[i as int] == s[0]);
            assert(p[i as int] == pad_char());
            lemma_path_char_not_pad(s[0]);
            assert(false);
        } else {
            assert forall|j: int| 0 <= j < a.len() implies s[j] == a[j] by {
                assert(e[k + j] == s[j]);
                assert(p[k + j] == a[j]);
            }
            assert(s.subrange(0, a.len() as int) =~= a);
            assert(false);
        }
    }
}

/// A reply scan of `a` includes the key of every one-character extension of
/// `a`, and excludes the key of every valid path that does not extend `a`.
pub proof fn lemma_reply_scan_separates(a: Seq<char>, c: char, s: Seq<char>)
    requires
        is_valid_path(a.push(c)),
        is_valid_path(a),
        is_valid_path(s),
    ensures
        encode(a, 1).is_prefix_of(encode(a.push(c), 0)),
        !a.is_prefix_of(s) ==> !encode(a, 1).is_prefix_of(encode(s, 0)),
{
    assert(a.is_prefix_of(a.push(c))) by {
        assert(a.push(c).subrange(0, a.len() as int) =~= a);
    }
    lemma_reply_scan_exact(a, a.push(c));
    lemma_reply_scan_exact(a, s);
    if a.len() == 0 {
        assert(s.subrange(0, 0) =~= a);
    }
}

} // verus!
