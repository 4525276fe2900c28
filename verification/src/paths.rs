//! Member names and declared entries as paths: sequences of components
//! between `/` separators. All comparisons are made on components, never on
//! the raw characters.

use crate::text::{chars_of, same_chars};
use vstd::prelude::*;

verus! {

/// The component that stands for the directory itself.
pub open spec fn dot() -> Seq<char> {
    seq!['.']
}

/// The component that stands for the parent directory.
pub open spec fn dotdot() -> Seq<char> {
    seq!['.', '.']
}

/// Whether `path` ends with a separator: such an entry denotes a directory
/// and never a member of its own.
pub open spec fn is_directory(path: Seq<char>) -> bool {
    path.len() > 0 && path.last() == '/'
}

/// Whether `path` begins at the root.
pub open spec fn is_absolute(path: Seq<char>) -> bool {
    path.len() > 0 && path[0] == '/'
}

/// The pieces of `path` between its separators. There is one piece more
/// than there are separators; a piece may be empty.
pub open spec fn pieces(path: Seq<char>) -> Seq<Seq<char>>
    decreases path.len(),
{
    if path.len() == 0 {
        seq![Seq::empty()]
    } else {
        let before = pieces(path.drop_last());
        if path.last() == '/' {
            before.push(Seq::empty())
        } else {
            before.drop_last().push(before.last().push(path.last()))
        }
    }
}

/// Whether the piece `piece`, the last of `count` pieces, is a component:
/// an empty piece is none, and `.` is one only as the first piece.
pub open spec fn is_component(piece: Seq<char>, count: nat) -> bool {
    piece.len() > 0 && (piece != dot() || count == 1)
}

/// The components among `pieces`, in their order.
pub open spec fn kept(pieces: Seq<Seq<char>>) -> Seq<Seq<char>>
    decreases pieces.len(),
{
    if pieces.len() == 0 {
        Seq::empty()
    } else {
        let before = kept(pieces.drop_last());
        if is_component(pieces.last(), pieces.len()) {
            before.push(pieces.last())
        } else {
            before
        }
    }
}

/// The components of `path`: its pieces without the empty ones and without
/// `.`, but for a `.` that `path` begins with.
pub open spec fn components(path: Seq<char>) -> Seq<Seq<char>> {
    kept(pieces(path))
}

/// Whether `path` could lead out of the directory that it is joined to: it
/// begins at the root, or one of its pieces is `..`.
pub open spec fn escapes(path: Seq<char>) -> bool {
    is_absolute(path) || pieces(path).contains(dotdot())
}

/// Whether `path` is a plain relative name on every platform: it does not
/// lead out of its directory, and holds no NUL, no backslash and no colon,
/// so that splitting it at `/` gives its components whatever the platform
/// takes for a separator or a drive.
pub open spec fn is_plain(path: Seq<char>) -> bool {
    !escapes(path) && !path.contains('\0') && !path.contains('\\') && !path.contains(':')
}

/// Whether `path` lies under `directory`: both begin at the root or neither
/// does, and the components of `directory` are the first components of
/// `path`.
pub open spec fn is_under(path: Seq<char>, directory: Seq<char>) -> bool {
    is_absolute(path) == is_absolute(directory) && components(directory).is_prefix_of(
        components(path),
    )
}

/// The views of a sequence of components.
pub open spec fn parts(items: Seq<Vec<char>>) -> Seq<Seq<char>> {
    items.map_values(|item: Vec<char>| item@)
}

/// `pieces` never gives an empty sequence.
pub proof fn lemma_pieces_nonempty(path: Seq<char>)
    ensures
        pieces(path).len() >= 1,
    decreases path.len(),
{
    if path.len() > 0 {
        lemma_pieces_nonempty(path.drop_last());
    }
}

/// How the pieces change when the next character is read.
proof fn lemma_pieces_step(path: Seq<char>, i: int, done: Seq<Seq<char>>, current: Seq<char>)
    requires
        0 <= i < path.len(),
        pieces(path.take(i)) == done.push(current),
    ensures
        path[i] == '/' ==> pieces(path.take(i + 1)) == done.push(current).push(Seq::empty()),
        path[i] != '/' ==> pieces(path.take(i + 1)) == done.push(current.push(path[i])),
{
    let next = path.take(i + 1);
    assert(next.drop_last() =~= path.take(i));
    assert(next.last() == path[i]);
    assert(done.push(current).drop_last() =~= done);
    assert(done.push(current).last() == current);
}

/// Whether `piece` is `..`.
fn is_dotdot(piece: &Vec<char>) -> (r: bool)
    ensures
        r == (piece@ == dotdot()),
{
    let r = piece.len() == 2 && piece[0] == '.' && piece[1] == '.';
    proof {
        if r {
            assert(piece@ =~= dotdot());
        }
    }
    r
}

/// Whether `piece` is `.`.
fn is_dot(piece: &Vec<char>) -> (r: bool)
    ensures
        r == (piece@ == dot()),
{
    let r = piece.len() == 1 && piece[0] == '.';
    proof {
        if r {
            assert(piece@ =~= dot());
        }
    }
    r
}

/// Whether the characters `path` end with a separator.
pub fn ends_with_separator(path: &Vec<char>) -> (r: bool)
    ensures
        r == is_directory(path@),
{
    path.len() > 0 && path[path.len() - 1] == '/'
}

/// Whether the characters `path` begin at the root.
pub fn begins_at_root(path: &Vec<char>) -> (r: bool)
    ensures
        r == is_absolute(path@),
{
    path.len() > 0 && path[0] == '/'
}

/// Whether the characters `path` could lead out of the directory that they
/// are joined to.
pub fn is_escaping(path: &Vec<char>) -> (r: bool)
    ensures
        r == escapes(path@),
{
    if begins_at_root(path) {
        return true;
    }
    let mut current: Vec<char> = Vec::new();
    let ghost mut done: Seq<Seq<char>> = Seq::empty();
    let mut i: usize = 0;
    proof {
        assert(path@.take(0) =~= Seq::<char>::empty());
        assert(pieces(path@.take(0)) =~= done.push(current@));
    }
    while i < path.len()
        invariant
            i <= path.len(),
            pieces(path@.take(i as int)) == done.push(current@),
            !done.contains(dotdot()),
        decreases path.len() - i,
    {
        proof {
            lemma_pieces_step(path@, i as int, done, current@);
        }
        let c = path[i];
        if c == '/' {
            if is_dotdot(&current) {
                proof {
                    let all = pieces(path@);
                    lemma_pieces_prefix(path@, i + 1);
                    assert(pieces(path@.take(i + 1))[done.len() as int] == dotdot());
                    assert(all[done.len() as int] == dotdot());
                }
                return true;
            }
            proof {
                let ghost before = done;
                done = done.push(current@);
                assert forall|k: int| 0 <= k < done.len() implies done[k] != dotdot() by {
                    if k < before.len() {
                        assert(before.contains(before[k]));
                    }
                }
            }
            current = Vec::new();
        } else {
            current.push(c);
        }
        i += 1;
    }
    proof {
        assert(path@.take(path@.len() as int) =~= path@);
    }
    let last = is_dotdot(&current);
    proof {
        let all = done.push(current@);
        if last {
            assert(all[done.len() as int] == dotdot());
        } else {
            assert forall|k: int| 0 <= k < all.len() implies all[k] != dotdot() by {
                if k < done.len() {
                    assert(done.contains(done[k]));
                }
            }
        }
    }
    last
}

/// The pieces that are complete after `n` characters stay as they are when
/// more characters follow: all but the last piece of the first `n`
/// characters are pieces of the whole path, at the same places.
pub proof fn lemma_pieces_prefix(path: Seq<char>, n: int)
    requires
        0 <= n <= path.len(),
    ensures
        pieces(path.take(n)).len() <= pieces(path).len(),
        forall|k: int|
            0 <= k < pieces(path.take(n)).len() - 1 ==> pieces(path)[k] == pieces(path.take(n))[k],
    decreases path.len() - n,
{
    if n == path.len() {
        assert(path.take(n) =~= path);
    } else {
        lemma_pieces_prefix(path, n + 1);
        let shorter = path.take(n);
        let longer = path.take(n + 1);
        assert(longer.drop_last() =~= shorter);
        lemma_pieces_nonempty(shorter);
    }
}

/// The components of the characters `path`.
pub fn components_of(path: &Vec<char>) -> (out: Vec<Vec<char>>)
    ensures
        parts(out@) == components(path@),
{
    let mut out: Vec<Vec<char>> = Vec::new();
    let mut current: Vec<char> = Vec::new();
    let mut first: bool = true;
    let ghost mut done: Seq<Seq<char>> = Seq::empty();
    let mut i: usize = 0;
    proof {
        assert(path@.take(0) =~= Seq::<char>::empty());
        assert(pieces(path@.take(0)) =~= done.push(current@));
        assert(parts(out@) =~= kept(done));
    }
    while i < path.len()
        invariant
            i <= path.len(),
            pieces(path@.take(i as int)) == done.push(current@),
            parts(out@) == kept(done),
            first == (done.len() == 0),
        decreases path.len() - i,
    {
        proof {
            lemma_pieces_step(path@, i as int, done, current@);
        }
        let c = path[i];
        if c == '/' {
            let keep = current.len() > 0 && (first || !is_dot(&current));
            proof {
                let closed = done.push(current@);
                assert(closed.drop_last() =~= done);
                assert(closed.last() == current@);
                assert(keep == is_component(current@, closed.len()));
                if keep {
                    assert(parts(out@.push(current)) =~= parts(out@).push(current@));
                }
                done = closed;
            }
            if keep {
                out.push(current);
            }
            current = Vec::new();
            first = false;
        } else {
            current.push(c);
        }
        i += 1;
    }
    let keep = current.len() > 0 && (first || !is_dot(&current));
    proof {
        assert(path@.take(path@.len() as int) =~= path@);
        let closed = done.push(current@);
        assert(closed.drop_last() =~= done);
        assert(closed.last() == current@);
        assert(keep == is_component(current@, closed.len()));
        if keep {
            assert(parts(out@.push(current)) =~= parts(out@).push(current@));
        }
    }
    if keep {
        out.push(current);
    }
    out
}

/// Whether the components `prefix` are the first components of `whole`.
pub fn begins_with(whole: &Vec<Vec<char>>, prefix: &Vec<Vec<char>>) -> (r: bool)
    ensures
        r == parts(prefix@).is_prefix_of(parts(whole@)),
{
    if prefix.len() > whole.len() {
        return false;
    }
    let mut i: usize = 0;
    while i < prefix.len()
        invariant
            i <= prefix.len() <= whole.len(),
            forall|j: int| 0 <= j < i ==> parts(prefix@)[j] == parts(whole@)[j],
        decreases prefix.len() - i,
    {
        if !same_chars(&prefix[i], &whole[i]) {
            assert(parts(whole@).subrange(0, prefix@.len() as int)[i as int] != parts(
                prefix@,
            )[i as int]);
            return false;
        }
        i += 1;
    }
    assert(parts(prefix@) =~= parts(whole@).subrange(0, prefix@.len() as int));
    true
}

/// Whether the name `path` could lead out of the directory that it is
/// joined to.
pub fn name_escapes(path: &str) -> (r: bool)
    ensures
        r == escapes(path@),
{
    let chars = chars_of(path);
    is_escaping(&chars)
}

} // verus!
