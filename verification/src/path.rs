//! Paths as the simulated file system tells them apart.
//!
//! A path is a byte string. Two paths name the same file when they have the same
//! components, so `a/b`, `a//b`, `a/./b` and `a/b/` are one path, while `./a/b`,
//! `/a/b` and `a/c/../b` are three others.
use vstd::prelude::*;

verus! {

/// The byte that separates components: `/`.
pub const SEPARATOR: u8 = 0x2f;

/// The byte of the current-directory component: `.`.
pub const DOT: u8 = 0x2e;

/// The pieces of a path between its separators, empty ones among them. There is one more
/// piece than there are separators.
pub open spec fn pieces(path: Seq<u8>) -> Seq<Seq<u8>>
    decreases path.len(),
{
    if path.len() == 0 {
        seq![Seq::<u8>::empty()]
    } else {
        let before = pieces(path.drop_last());
        if path.last() == SEPARATOR {
            before.push(Seq::<u8>::empty())
        } else {
            before.drop_last().push(before.last().push(path.last()))
        }
    }
}

/// Whether a piece is kept as a component wherever it stands.
pub open spec fn is_name(piece: Seq<u8>) -> bool {
    piece.len() > 0 && piece != seq![DOT]
}

/// The component that a path starts with besides its names: the root for an absolute path,
/// the current directory for one that starts with it, none otherwise.
pub open spec fn anchor(path: Seq<u8>) -> Seq<Seq<u8>> {
    if path.len() > 0 && path[0] == SEPARATOR {
        seq![seq![SEPARATOR]]
    } else if pieces(path)[0] == seq![DOT] {
        seq![seq![DOT]]
    } else {
        Seq::empty()
    }
}

/// The components of a path: its anchor, then its names in order.
pub open spec fn components(path: Seq<u8>) -> Seq<Seq<u8>> {
    anchor(path) + pieces(path).filter(|piece: Seq<u8>| is_name(piece))
}

/// The byte strings that a vector of vectors holds.
pub open spec fn deep(v: Seq<Vec<u8>>) -> Seq<Seq<u8>> {
    v.map_values(|piece: Vec<u8>| piece@)
}

proof fn lemma_deep_push(v: Seq<Vec<u8>>, piece: Vec<u8>)
    ensures
        deep(v.push(piece)) == deep(v).push(piece@),
{
    assert(deep(v.push(piece)) =~= deep(v).push(piece@));
}

/// There is always at least one piece.
pub proof fn lemma_pieces_nonempty(path: Seq<u8>)
    ensures
        pieces(path).len() > 0,
    decreases path.len(),
{
    if path.len() > 0 {
        lemma_pieces_nonempty(path.drop_last());
    }
}

/// Copies a byte string.
pub(crate) fn copy_bytes(bytes: &[u8]) -> (copy: Vec<u8>)
    ensures
        copy@ == bytes@,
{
    let mut copy: Vec<u8> = Vec::new();
    let mut i: usize = 0;
    while i < bytes.len()
        invariant
            i <= bytes@.len(),
            copy@ == bytes@.take(i as int),
        decreases bytes@.len() - i,
    {
        copy.push(bytes[i]);
        assert(copy@ =~= bytes@.take(i + 1));
        i = i + 1;
    }
    assert(bytes@.take(i as int) =~= bytes@);
    copy
}

/// Cuts a path at its separators.
fn split(path: &[u8]) -> (out: Vec<Vec<u8>>)
    ensures
        deep(out@) == pieces(path@),
{
    let mut done: Vec<Vec<u8>> = Vec::new();
    let mut piece: Vec<u8> = Vec::new();
    let mut i: usize = 0;
    assert(deep(done@).push(piece@) =~= pieces(path@.take(0)));
    while i < path.len()
        invariant
            i <= path@.len(),
            deep(done@).push(piece@) == pieces(path@.take(i as int)),
        decreases path@.len() - i,
    {
        let byte: u8 = path[i];
        let ghost next = path@.take(i + 1);
        let ghost before = pieces(path@.take(i as int));
        proof {
            assert(next.drop_last() =~= path@.take(i as int));
            assert(next.last() == byte);
            assert(before.drop_last() =~= deep(done@));
        }
        if byte == SEPARATOR {
            proof {
                lemma_deep_push(done@, piece);
            }
            done.push(piece);
            piece = Vec::new();
        } else {
            piece.push(byte);
        }
        i = i + 1;
    }
    proof {
        assert(path@.take(i as int) =~= path@);
        lemma_deep_push(done@, piece);
    }
    done.push(piece);
    done
}

/// Whether a piece is kept as a component wherever it stands.
fn keeps(piece: &Vec<u8>) -> (kept: bool)
    ensures
        kept == is_name(piece@),
{
    let kept = piece.len() > 0 && !(piece.len() == 1 && piece[0] == DOT);
    assert(piece@ == seq![DOT] <==> (piece@.len() == 1 && piece@[0] == DOT)) by {
        if piece@.len() == 1 && piece@[0] == DOT {
            assert(piece@ =~= seq![DOT]);
        }
    }
    kept
}

/// Returns the components of a path.
pub fn components_of(path: &[u8]) -> (out: Vec<Vec<u8>>)
    ensures
        deep(out@) == components(path@),
{
    let cut = split(path);
    let ghost p = |piece: Seq<u8>| is_name(piece);
    let mut out: Vec<Vec<u8>> = Vec::new();
    proof {
        lemma_pieces_nonempty(path@);
        assert(cut@.len() == pieces(path@).len());
        assert(cut@[0]@ == pieces(path@)[0]);
    }
    if path.len() > 0 && path[0] == SEPARATOR {
        out.push(vec![SEPARATOR]);
        assert(out@[0]@ =~= seq![SEPARATOR]);
        assert(deep(out@) =~= anchor(path@));
    } else if cut[0].len() == 1 && cut[0][0] == DOT {
        assert(cut@[0]@ =~= seq![DOT]);
        out.push(vec![DOT]);
        assert(out@[0]@ =~= seq![DOT]);
        assert(deep(out@) =~= anchor(path@));
    } else {
        assert(cut@[0]@ != seq![DOT]);
        assert(deep(out@) =~= anchor(path@));
    }
    let mut i: usize = 0;
    assert(pieces(path@).take(0).filter(p) =~= Seq::<Seq<u8>>::empty()) by {
        reveal(Seq::filter);
    }
    assert(deep(out@) =~= anchor(path@) + pieces(path@).take(0).filter(p));
    while i < cut.len()
        invariant
            i <= cut@.len(),
            p == (|piece: Seq<u8>| is_name(piece)),
            deep(cut@) == pieces(path@),
            deep(out@) == anchor(path@) + pieces(path@).take(i as int).filter(p),
        decreases cut@.len() - i,
    {
        let ghost all = pieces(path@);
        proof {
            assert(all.len() == cut@.len());
            assert(all[i as int] == cut@[i as int]@);
            assert(all.take(i + 1).drop_last() =~= all.take(i as int));
            reveal(Seq::filter);
        }
        if keeps(&cut[i]) {
            let piece = copy_bytes(cut[i].as_slice());
            proof {
                lemma_deep_push(out@, piece);
            }
            out.push(piece);
            assert(deep(out@) =~= anchor(path@) + all.take(i + 1).filter(p));
        }
        i = i + 1;
    }
    assert(pieces(path@).take(i as int) =~= pieces(path@));
    out
}

/// Whether two byte strings are equal.
fn same_bytes(a: &Vec<u8>, b: &Vec<u8>) -> (same: bool)
    ensures
        same == (a@ == b@),
{
    if a.len() != b.len() {
        return false;
    }
    let mut i: usize = 0;
    while i < a.len()
        invariant
            i <= a@.len(),
            a@.len() == b@.len(),
            a@.take(i as int) =~= b@.take(i as int),
        decreases a@.len() - i,
    {
        if a[i] != b[i] {
            return false;
        }
        assert(a@.take(i + 1) =~= a@.take(i as int).push(a@[i as int]));
        assert(b@.take(i + 1) =~= b@.take(i as int).push(b@[i as int]));
        i = i + 1;
    }
    assert(a@.take(i as int) =~= a@);
    assert(b@.take(i as int) =~= b@);
    true
}

/// Whether two paths name the same file, that is, whether they have the same components.
pub fn same_path(a: &[u8], b: &[u8]) -> (same: bool)
    ensures
        same == (components(a@) == components(b@)),
{
    let x = components_of(a);
    let y = components_of(b);
    assert(x@.len() == components(a@).len());
    assert(y@.len() == components(b@).len());
    if x.len() != y.len() {
        return false;
    }
    let mut i: usize = 0;
    while i < x.len()
        invariant
            i <= x@.len(),
            x@.len() == y@.len(),
            deep(x@) == components(a@),
            deep(y@) == components(b@),
            forall|k: int| 0 <= k < i ==> components(a@)[k] == components(b@)[k],
        decreases x@.len() - i,
    {
        assert(components(a@)[i as int] == x@[i as int]@);
        assert(components(b@)[i as int] == y@[i as int]@);
        if !same_bytes(&x[i], &y[i]) {
            return false;
        }
        i = i + 1;
    }
    assert(components(a@) =~= components(b@));
    true
}

} // verus!
