//! The post store: posts under fixed-width keys, and their direct replies.
use vstd::prelude::*;

use crate::db::user::{get_user, is_user_of};
use crate::db::Env;
use crate::key_codec::{
    encode, get_prefix, is_all_padding, lemma_all_padding_post_key, lemma_path_char_not_pad,
    lemma_post_key, is_path_char, is_post_key, is_valid_path, strip_padding, lemma_reply_scan_exact, pad_char, KEY_WIDTH,
};
use crate::kv::{
    capped, chars_of, has_key, key_index, lemma_prefixed_key_stored,
    lemma_key_lt_irreflexive, lemma_prefixed_keys_complete, lemma_prefixed_keys_sorted,
    lemma_prefixed_keys_sound, prefixed_keys,
};
use crate::post_obj::{Post, PostError, PostTitle};
use crate::user_obj::User;
use crate::post::{create_post, create_post_outcome, validchar};

verus! {

/// The most keys one reply scan reads.
pub const MAX_REPLIES: usize = 50;

/// The post stored at `path`, if any; a path that is not valid names none.
pub open spec fn stored_post(env: &Env, path: Seq<char>) -> Option<Post> {
    if is_valid_path(path) {
        env.posts.spec_get(encode(path, 0))
    } else {
        None
    }
}

/// What html text escaping turns one character into.
pub open spec fn escape_char(c: char) -> Seq<char> {
    if c == '&' {
        seq!['&', 'a', 'm', 'p', ';']
    } else if c == '<' {
        seq!['&', 'l', 't', ';']
    } else if c == '>' {
        seq!['&', 'g', 't', ';']
    } else {
        seq![c]
    }
}

/// `s` with each `&`, `<` and `>` replaced by its html entity.
pub open spec fn escape_text(s: Seq<char>) -> Seq<char>
    decreases s.len(),
{
    if s.len() == 0 {
        Seq::empty()
    } else {
        escape_text(s.drop_last()) + escape_char(s.last())
    }
}

/// Relies on html_escape::encode_text: every `&`, `<` and `>` becomes `&amp;`,
/// `&lt;` and `&gt;`; every other character is kept as it is.
#[verifier::external_body]
fn escape_html(s: &str) -> (r: String)
    ensures
        r@ == escape_text(s@),
{
    html_escape::encode_text(s).into_owned()
}

/// The keys of `ks` that are not made of filler only, in order.
pub open spec fn non_root_keys(ks: Seq<Seq<char>>) -> Seq<Seq<char>>
    decreases ks.len(),
{
    if ks.len() == 0 {
        Seq::empty()
    } else {
        let rest = non_root_keys(ks.drop_last());
        if is_all_padding(ks.last()) {
            rest
        } else {
            rest.push(ks.last())
        }
    }
}

/// The keys of the direct replies to `path`: the keys under its reply scan
/// but the root's.
pub open spec fn child_keys(env: &Env, path: Seq<char>) -> Seq<Seq<char>> {
    if is_valid_path(path) && path.len() < KEY_WIDTH {
        non_root_keys(prefixed_keys(env.posts@, encode(path, 1)))
    } else {
        Seq::empty()
    }
}

/// The keys of the direct replies to `path` that one listing yields: a scan
/// of one key more than the cap (room for the root's own key), the root's key
/// dropped, the rest cut at the cap.
pub open spec fn reply_keys(env: &Env, path: Seq<char>) -> Seq<Seq<char>> {
    if is_valid_path(path) && path.len() < KEY_WIDTH {
        capped(
            non_root_keys(
                capped(prefixed_keys(env.posts@, encode(path, 1)), (MAX_REPLIES + 1) as nat),
            ),
            MAX_REPLIES as nat,
        )
    } else {
        Seq::empty()
    }
}

/// `after` holds what `before` held, but for the posts under `key`.
pub open spec fn posts_kept_but(before: &Env, after: &Env, key: Seq<char>) -> bool {
    &&& after.users == before.users
    &&& after.sessions == before.sessions
    &&& after.session_expiry == before.session_expiry
    &&& forall|k: Seq<char>| k != key ==> #[trigger] after.posts.spec_get(k) == before.posts.spec_get(k)
}

/// Whether `key` is made of filler characters only.
fn is_padding_only(key: &str) -> (r: bool)
    ensures
        r == is_all_padding(key@),
{
    let chars = chars_of(key);
    let n = chars.len();
    let mut i: usize = 0;
    while i < n
        invariant
            i <= n,
            n == key@.len(),
            chars@ == key@,
            forall|j: int| 0 <= j < i ==> key@[j] == pad_char(),
        decreases n - i,
    {
        if chars[i] != ' ' {
            return false;
        }
        i += 1;
    }
    true
}

/// `key` without its leading filler characters.
fn trim_padding(key: &str) -> (r: String)
    ensures
        r@ == strip_padding(key@),
{
    let chars = chars_of(key);
    let n = chars.len();
    let mut i: usize = 0;
    assert(key@.subrange(0, n as int) =~= key@);
    while i < n && chars[i] == ' '
        invariant
            i <= n,
            n == key@.len(),
            chars@ == key@,
            strip_padding(key@) == strip_padding(key@.subrange(i as int, n as int)),
        decreases n - i,
    {
        let ghost rest = key@.subrange(i as int, n as int);
        assert(rest.drop_first() =~= key@.subrange(i + 1, n as int));
        i += 1;
    }
    String::from_str(key.substring_char(i, n))
}

/// The post at `post_id` with its path and its author's account.
pub fn get_content(env: &Env, post_id: &str) -> (r: Option<PostTitle>)
    requires
        env.wf(),
    ensures
        match r {
            None => stored_post(env, post_id@) is None,
            Some(pt) => {
                &&& stored_post(env, post_id@) == Some(pt.post)
                &&& pt.title@ == post_id@
                &&& is_user_of(env, pt.post.user@, pt.user)
            },
        },
{
    if !all_path_chars(post_id) {
        return None;
    }
    let key = match get_prefix(post_id, 0) {
        Err(_) => return None,
        Ok(key) => key,
    };
    match env.posts.get(key.as_str()) {
        None => None,
        Some(post) => {
            let post = post.copied();
            let user = get_user(env, post.user.as_str());
            Some(PostTitle { title: String::from_str(post_id), user, post })
        },
    }
}

/// Stores a post by `author` under `key`, with `contents` escaped.
pub(crate) fn write_post(env: &mut Env, key: String, contents: &str, author: String)
    requires
        old(env).wf(),
        is_post_key(key@),
    ensures
        final(env).wf(),
        posts_kept_but(old(env), final(env), key@),
        final(env).posts.spec_get(key@) matches Some(p) && p.user == author && p.content@
            == escape_text(contents@),
{
    let post = Post { user: author, content: escape_html(contents) };
    env.posts.put(key, post);
}

/// Creates the post by `user` at `post_id`, with `contents` escaped, on the
/// same terms as `create_post`: a post once written is never replaced, and a
/// reply needs its parent.
pub fn post_content(env: &mut Env, post_id: &str, contents: &str, user: User) -> (r: Result<
    (),
    PostError,
>)
    requires
        old(env).wf(),
    ensures
        final(env).wf(),
        r == create_post_outcome(old(env), post_id@),
        r is Err ==> *final(env) == *old(env),
        r is Ok ==> posts_kept_but(old(env), final(env), encode(post_id@, 0)),
        r is Ok ==> (stored_post(final(env), post_id@) matches Some(p) && p.user@ == user.user_id@
            && p.content@ == escape_text(contents@)),
{
    create_post(env, post_id, contents, user.user_id.as_str())
}

/// Whether every character of `path` is an ASCII letter or digit.
pub fn all_path_chars(path: &str) -> (r: bool)
    ensures
        r == forall|i: int| 0 <= i < path@.len() ==> #[trigger] is_path_char(path@[i]),
{
    let chars = chars_of(path);
    let n = chars.len();
    let mut i: usize = 0;
    while i < n
        invariant
            i <= n,
            n == path@.len(),
            chars@ == path@,
            forall|j: int| 0 <= j < i ==> is_path_char(#[trigger] path@[j]),
        decreases n - i,
    {
        if !validchar(chars[i]) {
            return false;
        }
        i += 1;
    }
    true
}

/// The direct replies to `post_id`, in key order, each with its path and its
/// author's account; at most `MAX_REPLIES` of them, and all of them where
/// there are no more.
pub fn get_replies(env: &Env, post_id: &str) -> (r: Vec<PostTitle>)
    requires
        env.wf(),
    ensures
        r.len() == reply_keys(env, post_id@).len(),
        r.len() <= MAX_REPLIES,
        forall|j: int|
            0 <= j < r.len() ==> {
                let key = #[trigger] reply_keys(env, post_id@)[j];
                &&& r[j].title@ == strip_padding(key)
                &&& env.posts.spec_get(key) == Some(r[j].post)
                &&& stored_post(env, r[j].title@) == Some(r[j].post)
                &&& is_user_of(env, r[j].post.user@, r[j].user)
            },
        is_valid_path(post_id@) ==> forall|j: int|
            0 <= j < r.len() ==> #[trigger] r[j].title@.len() == post_id@.len() + 1
                && post_id@.is_prefix_of(r[j].title@),
        is_valid_path(post_id@) && child_keys(env, post_id@).len() <= MAX_REPLIES ==> forall|
            c: char,
        |
            is_path_char(c) && #[trigger] stored_post(env, post_id@.push(c)) is Some ==> exists|
                j: int,
            |
                0 <= j < r.len() && r[j].title@ == post_id@.push(c),
{
    let mut r: Vec<PostTitle> = Vec::new();
    if !all_path_chars(post_id) {
        return r;
    }
    let prefix = match get_prefix(post_id, 1) {
        Err(_) => return r,
        Ok(prefix) => prefix,
    };
    let keys = env.posts.list_prefix(prefix.as_str(), MAX_REPLIES + 1);
    let ghost ks = keys@.map_values(|s: String| s@);
    let ghost all = prefixed_keys(env.posts@, prefix@);
    assert(ks == capped(all, (MAX_REPLIES + 1) as nat));
    let mut i: usize = 0;
    while i < keys.len()
        invariant
            env.wf(),
            i <= keys@.len(),
            ks == keys@.map_values(|s: String| s@),
            ks == capped(all, (MAX_REPLIES + 1) as nat),
            all == prefixed_keys(env.posts@, prefix@),
            r.len() == non_root_keys(ks.subrange(0, i as int)).len(),
            forall|j: int|
                0 <= j < r.len() ==> {
                    let key = #[trigger] non_root_keys(ks.subrange(0, i as int))[j];
                    &&& r[j].title@ == strip_padding(key)
                    &&& env.posts.spec_get(key) == Some(r[j].post)
                    &&& is_user_of(env, r[j].post.user@, r[j].user)
                },
        decreases keys.len() - i,
    {
        let key = keys[i].as_str();
        assert(ks.subrange(0, i + 1).drop_last() =~= ks.subrange(0, i as int));
        assert(ks.subrange(0, i + 1).last() == key@);
        if !is_padding_only(key) {
            proof {
                assert(ks.len() == keys@.len());
                assert(ks[i as int] == key@);
                assert(i < all.len() && ks[i as int] == all[i as int]);
                lemma_prefixed_key_stored(env.posts@, prefix@, i as int);
                assert(has_key(env.posts@, key@));
            }
            match env.posts.get(key) {
                Some(post) => {
                    let post = post.copied();
                    let user = get_user(env, post.user.as_str());
                    r.push(PostTitle { title: trim_padding(key), user, post });
                },
                None => {},
            }
        }
        i += 1;
    }
    assert(ks.subrange(0, i as int) =~= ks);
    let ghost listed = r@;
    r.truncate(MAX_REPLIES);
    proof {
        let rk = reply_keys(env, post_id@);
        assert forall|j: int| 0 <= j < r.len() implies stored_post(env, r[j].title@) == Some(
            r[j].post,
        ) && (is_valid_path(post_id@) ==> r[j].title@.len() == post_id@.len() + 1
            && post_id@.is_prefix_of(r[j].title@)) by {
            assert(r[j] == listed[j]);
            assert(rk[j] == non_root_keys(ks)[j]);
            lemma_reply_key_facts(env, post_id@, j);
            lemma_post_key(strip_padding(rk[j]));
            if is_valid_path(post_id@) {
                lemma_reply_is_child(env, post_id@, j);
            }
        }
        assert forall|j: int| 0 <= j < r.len() implies {
            let key = #[trigger] reply_keys(env, post_id@)[j];
            &&& r[j].title@ == strip_padding(key)
            &&& env.posts.spec_get(key) == Some(r[j].post)
            &&& stored_post(env, r[j].title@) == Some(r[j].post)
            &&& is_user_of(env, r[j].post.user@, r[j].user)
        } by {
            assert(r[j] == listed[j]);
            assert(rk[j] == non_root_keys(ks)[j]);
        }
        if is_valid_path(post_id@) && child_keys(env, post_id@).len() <= MAX_REPLIES {
            assert forall|c: char|
                is_path_char(c) && #[trigger] stored_post(env, post_id@.push(c))
                    is Some implies exists|j: int|
                0 <= j < r.len() && r[j].title@ == post_id@.push(c) by {
                lemma_reply_keys_complete(env, post_id@, c);
                let k = encode(post_id@.push(c), 0);
                let j = choose|j: int| 0 <= j < rk.len() && rk[j] == k;
                assert(r[j] == listed[j]);
                assert(rk[j] == non_root_keys(ks)[j]);
                lemma_post_key(post_id@.push(c));
            }
        }
    }
    r
}

/// Deletes the post at `post_id`; its replies stay where they are.
pub fn delete_post(env: &mut Env, post_id: &str)
    requires
        old(env).wf(),
    ensures
        final(env).wf(),
        stored_post(final(env), post_id@) is None,
        is_valid_path(post_id@) ==> posts_kept_but(old(env), final(env), encode(post_id@, 0)),
        !is_valid_path(post_id@) ==> *final(env) == *old(env),
{
    if !all_path_chars(post_id) {
        return;
    }
    if let Ok(key) = get_prefix(post_id, 0) {
        env.posts.delete(key.as_str());
    }
}


proof fn lemma_non_root_keys_sound(ks: Seq<Seq<char>>, j: int)
    requires
        0 <= j < non_root_keys(ks).len(),
    ensures
        ks.contains(non_root_keys(ks)[j]),
        !is_all_padding(non_root_keys(ks)[j]),
    decreases ks.len(),
{
    let rest = non_root_keys(ks.drop_last());
    if j < rest.len() {
        lemma_non_root_keys_sound(ks.drop_last(), j);
        let i = choose|i: int| 0 <= i < ks.drop_last().len() && ks.drop_last()[i] == rest[j];
        assert(ks[i] == non_root_keys(ks)[j]);
    } else {
        assert(ks[ks.len() - 1] == non_root_keys(ks)[j]);
    }
}

proof fn lemma_non_root_keys_complete(ks: Seq<Seq<char>>, i: int)
    requires
        0 <= i < ks.len(),
        !is_all_padding(ks[i]),
    ensures
        non_root_keys(ks).contains(ks[i]),
    decreases ks.len(),
{
    let rest = non_root_keys(ks.drop_last());
    if i < ks.len() - 1 {
        lemma_non_root_keys_complete(ks.drop_last(), i);
        let j = choose|j: int| 0 <= j < rest.len() && rest[j] == ks[i];
        assert(non_root_keys(ks)[j] == ks[i]);
    } else {
        assert(non_root_keys(ks)[rest.len() as int] == ks[i]);
    }
}

proof fn lemma_non_root_keys_all(ks: Seq<Seq<char>>)
    requires
        forall|i: int| 0 <= i < ks.len() ==> !#[trigger] is_all_padding(ks[i]),
    ensures
        non_root_keys(ks) == ks,
    decreases ks.len(),
{
    if ks.len() > 0 {
        lemma_non_root_keys_all(ks.drop_last());
        assert(ks.drop_last().push(ks.last()) =~= ks);
    }
}

proof fn lemma_non_root_keys_len(ks: Seq<Seq<char>>)
    requires
        forall|i: int, j: int|
            0 <= i < ks.len() && 0 <= j < ks.len() && #[trigger] is_all_padding(ks[i])
                && #[trigger] is_all_padding(ks[j]) ==> i == j,
    ensures
        non_root_keys(ks).len() + 1 >= ks.len(),
    decreases ks.len(),
{
    if ks.len() > 0 {
        let init = ks.drop_last();
        if is_all_padding(ks.last()) {
            assert forall|i: int| 0 <= i < init.len() implies !#[trigger] is_all_padding(init[i]) by {
                if is_all_padding(init[i]) {
                    assert(is_all_padding(ks[i]) && is_all_padding(ks[ks.len() - 1]));
                }
            }
            lemma_non_root_keys_all(init);
        } else {
            assert forall|i: int, j: int|
                0 <= i < init.len() && 0 <= j < init.len() && #[trigger] is_all_padding(init[i])
                    && #[trigger] is_all_padding(init[j]) implies i == j by {
                assert(is_all_padding(ks[i]) && is_all_padding(ks[j]));
            }
            lemma_non_root_keys_len(init);
        }
    }
}

/// Every key a reply listing reads holds a post, lies under the reply scan,
/// is the key of a valid path, and is not the root's.
proof fn lemma_reply_key_facts(env: &Env, path: Seq<char>, j: int)
    requires
        env.wf(),
        0 <= j < reply_keys(env, path).len(),
    ensures
        env.posts.spec_get(reply_keys(env, path)[j]) is Some,
        is_post_key(reply_keys(env, path)[j]),
        encode(path, 1).is_prefix_of(reply_keys(env, path)[j]),
        !is_all_padding(reply_keys(env, path)[j]),
{
    let pk = prefixed_keys(env.posts@, encode(path, 1));
    let ks = capped(pk, (MAX_REPLIES + 1) as nat);
    let nr = non_root_keys(ks);
    let k = reply_keys(env, path)[j];
    assert(nr[j] == k);
    lemma_non_root_keys_sound(ks, j);
    let i = choose|i: int| 0 <= i < ks.len() && ks[i] == k;
    assert(pk[i] == k);
    lemma_prefixed_keys_sound(env.posts@, encode(path, 1), i);
    assert(env.posts.spec_get(k) is Some);
}

/// Every reply a listing of a valid path reads is at a one-character
/// extension of that path.
pub proof fn lemma_reply_is_child(env: &Env, path: Seq<char>, j: int)
    requires
        env.wf(),
        is_valid_path(path),
        0 <= j < reply_keys(env, path).len(),
    ensures
        strip_padding(reply_keys(env, path)[j]).len() == path.len() + 1,
        path.is_prefix_of(strip_padding(reply_keys(env, path)[j])),
{
    let k = reply_keys(env, path)[j];
    lemma_reply_key_facts(env, path, j);
    let t = strip_padding(k);
    lemma_reply_scan_exact(path, t);
    if t.len() == 0 {
        assert(is_all_padding(k));
    }
}

/// Where a valid path has at most `MAX_REPLIES` direct replies, a listing
/// reads the key of every one of them.
pub proof fn lemma_reply_keys_complete(env: &Env, path: Seq<char>, c: char)
    requires
        env.wf(),
        is_valid_path(path),
        is_path_char(c),
        stored_post(env, path.push(c)) is Some,
        child_keys(env, path).len() <= MAX_REPLIES,
    ensures
        reply_keys(env, path).contains(encode(path.push(c), 0)),
{
    let es = env.posts@;
    let pk = prefixed_keys(es, encode(path, 1));
    assert(is_valid_path(path.push(c))) by {
        assert forall|i: int| 0 <= i < path.push(c).len() implies #[trigger] is_path_char(
            path.push(c)[i],
        ) by {
            if i < path.len() {
                assert(path.push(c)[i] == path[i]);
            }
        }
    }
    // at most one key under the scan is made of filler alone: the root's
    assert forall|a: int, b: int|
        0 <= a < pk.len() && 0 <= b < pk.len() && #[trigger] is_all_padding(pk[a])
            && #[trigger] is_all_padding(pk[b]) implies a == b by {
        lemma_prefixed_keys_sound(es, encode(path, 1), a);
        lemma_prefixed_keys_sound(es, encode(path, 1), b);
        assert(env.posts.spec_get(pk[a]) is Some);
        assert(env.posts.spec_get(pk[b]) is Some);
        lemma_all_padding_post_key(pk[a]);
        lemma_all_padding_post_key(pk[b]);
        if a != b {
            lemma_key_lt_irreflexive(pk[a]);
            if a < b {
                lemma_prefixed_keys_sorted(es, encode(path, 1), a, b);
            } else {
                lemma_prefixed_keys_sorted(es, encode(path, 1), b, a);
            }
        }
    }
    lemma_non_root_keys_len(pk);
    assert(capped(pk, (MAX_REPLIES + 1) as nat) == pk);
    assert(capped(non_root_keys(pk), MAX_REPLIES as nat) == non_root_keys(pk));
    let k = encode(path.push(c), 0);
    assert(env.posts.spec_get(k) is Some);
    assert(has_key(es, k));
    let i = key_index(es, k);
    assert(es[i].0 == k);
    assert(path.is_prefix_of(path.push(c))) by {
        assert(path.push(c).subrange(0, path.len() as int) =~= path);
    }
    lemma_reply_scan_exact(path, path.push(c));
    lemma_prefixed_keys_complete(es, encode(path, 1), i);
    let j = choose|j: int| 0 <= j < pk.len() && pk[j] == k;
    assert(k[KEY_WIDTH - 1] == c);
    lemma_path_char_not_pad(c);
    assert(!is_all_padding(k));
    lemma_non_root_keys_complete(pk, j);
}

} // verus!
