//! The path of a request.

use vstd::prelude::*;

verus! {

/// What follows the last slash of the path, or the whole path if it has none.
pub open spec fn last_segment(path: Seq<char>) -> Seq<char>
    decreases path.len(),
{
    if path.len() == 0 || path.last() == '/' {
        Seq::empty()
    } else {
        last_segment(path.drop_last()).push(path.last())
    }
}

/// What follows the last slash of the path, or the whole path if it has none.
pub fn channel_segment(path: &str) -> (segment: &str)
    ensures
        segment@ == last_segment(path@),
{
    let len: usize = path.unicode_len();
    let mut start: usize = 0;
    let mut read: usize = 0;
    proof {
        assert(path@.take(0) =~= Seq::<char>::empty());
        assert(path@.subrange(0, 0) =~= Seq::<char>::empty());
    }
    for c in it: path.chars()
        invariant
            it.seq() == path@,
            len == path@.len(),
            read == it.index(),
            start <= read <= len,
            last_segment(path@.take(read as int)) == path@.subrange(start as int, read as int),
    {
        read = read + 1;
        if c == '/' {
            start = read;
        }
        proof {
            let before = path@.take(read - 1);
            let after = path@.take(read as int);
            assert(after.drop_last() =~= before);
            assert(after.last() == c);
            if c == '/' {
                assert(path@.subrange(start as int, read as int) =~= Seq::<char>::empty());
            } else {
                assert(path@.subrange(start as int, read as int) =~= path@.subrange(
                    start as int,
                    read - 1,
                ).push(c));
            }
        }
    }
    assert(path@.take(len as int) =~= path@);
    path.substring_char(start, len)
}

/// The last segment ends the path, has no slash in it, and is either the whole path or comes right
/// after a slash.
pub proof fn lemma_last_segment(path: Seq<char>)
    ensures
        last_segment(path).len() <= path.len(),
        path.skip(path.len() - last_segment(path).len()) == last_segment(path),
        !last_segment(path).contains('/'),
        last_segment(path) == path || path[path.len() - last_segment(path).len() - 1] == '/',
    decreases path.len(),
{
    if path.len() > 0 && path.last() != '/' {
        let shorter = path.drop_last();
        lemma_last_segment(shorter);
        let segment = last_segment(path);
        let start = path.len() - segment.len();
        assert(path.skip(start) =~= shorter.skip(start).push(path.last()));
        assert forall|i: int| 0 <= i < segment.len() implies segment[i] != '/' by {
            if i < segment.len() - 1 {
                assert(segment[i] == last_segment(shorter)[i]);
            }
        }
        if last_segment(shorter) == shorter {
            assert(segment =~= path);
        }
    } else if path.len() > 0 {
        assert(path.skip(path.len() as int) =~= Seq::<char>::empty());
    } else {
        assert(path =~= Seq::<char>::empty());
        assert(path.skip(0) =~= Seq::<char>::empty());
    }
}

/// The segment that is taken from a path is everything after its last slash, and nothing else: of a
/// path that is some text, a slash and a name without slashes, it is the whole name. A path without
/// slashes is its own segment.
pub proof fn lemma_segment_is_what_follows_the_last_slash(
    path: &str,
    segment: &str,
    prefix: Seq<char>,
    name: Seq<char>,
)
    requires
        call_ensures(channel_segment, (path,), segment),
        !name.contains('/'),
        path@ == prefix.push('/') + name || path@ == name,
    ensures
        segment@ == name,
{
    lemma_last_segment(path@);
    assert(path@.skip(path@.len() - name.len()) =~= name);
    lemma_only_one_tail(path@, segment@, name);
}

/// A text has only one tail that has no slash and either is the whole text or follows a slash.
pub(crate) proof fn lemma_only_one_tail(text: Seq<char>, tail: Seq<char>, name: Seq<char>)
    requires
        tail.len() <= text.len(),
        text.skip(text.len() - tail.len()) == tail,
        !tail.contains('/'),
        tail == text || text[text.len() - tail.len() - 1] == '/',
        name.len() <= text.len(),
        text.skip(text.len() - name.len()) == name,
        !name.contains('/'),
        name == text || text[text.len() - name.len() - 1] == '/',
    ensures
        tail == name,
{
    if tail.len() < name.len() {
        let i = name.len() - tail.len() - 1;
        assert(name[i] == text[text.len() - tail.len() - 1]);
        assert(name.contains(name[i]));
    } else if name.len() < tail.len() {
        let i = tail.len() - name.len() - 1;
        assert(tail[i] == text[text.len() - name.len() - 1]);
        assert(tail.contains(tail[i]));
    }
}

} // verus!
