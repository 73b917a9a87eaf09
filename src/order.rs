//! The orders in which a book list can be sorted.
use vstd::prelude::*;

use crate::book::{Book, Header};
use vstd::string::StringSliceAdditionalSpecFns;
use vstd::utf8::encode_utf8;

verus! {

/// Lexicographic order on byte strings; a proper prefix comes first.
pub open spec fn lex_lt(a: Seq<u8>, b: Seq<u8>) -> bool
    decreases a.len(),
{
    if a.len() == 0 {
        b.len() > 0
    } else if b.len() == 0 {
        false
    } else if a[0] != b[0] {
        a[0] < b[0]
    } else {
        lex_lt(a.drop_first(), b.drop_first())
    }
}

/// The key by which a column orders books. Text compares by its UTF-8 bytes,
/// the way std orders `String`s; the weight as its one byte; the index column
/// gives every book the same key.
pub open spec fn sort_key(h: Header, b: Book) -> Seq<u8> {
    match h {
        Header::Author => encode_utf8(b.author@),
        Header::Title => encode_utf8(b.title@),
        Header::Weight => seq![b.weight],
        Header::Index => Seq::empty(),
    }
}

/// `a` comes strictly before `b` in the order of column `h`.
pub open spec fn key_lt(h: Header, a: Book, b: Book) -> bool {
    lex_lt(sort_key(h, a), sort_key(h, b))
}

pub proof fn lemma_lex_irreflexive(a: Seq<u8>)
    ensures
        !lex_lt(a, a),
    decreases a.len(),
{
    if a.len() > 0 {
        lemma_lex_irreflexive(a.drop_first());
    }
}

pub proof fn lemma_lex_transitive(a: Seq<u8>, b: Seq<u8>, c: Seq<u8>)
    requires
        lex_lt(a, b),
        lex_lt(b, c),
    ensures
        lex_lt(a, c),
    decreases a.len(),
{
    if a.len() > 0 && b.len() > 0 && c.len() > 0 && a[0] == b[0] && b[0] == c[0] {
        lemma_lex_transitive(a.drop_first(), b.drop_first(), c.drop_first());
    }
}

/// Two different byte strings are ordered one way or the other.
pub proof fn lemma_lex_total(a: Seq<u8>, b: Seq<u8>)
    ensures
        a == b || lex_lt(a, b) || lex_lt(b, a),
    decreases a.len(),
{
    if a.len() > 0 && b.len() > 0 && a[0] == b[0] {
        lemma_lex_total(a.drop_first(), b.drop_first());
        if a.drop_first() == b.drop_first() {
            assert(a =~= seq![a[0]] + a.drop_first());
            assert(b =~= seq![b[0]] + b.drop_first());
        }
    } else if a.len() == 0 && b.len() == 0 {
        assert(a =~= b);
    }
}

/// The order of a column is a strict weak order: irreflexive, transitive, and
/// books whose keys differ are ordered one way or the other.
pub proof fn lemma_key_order(h: Header, a: Book, b: Book, c: Book)
    ensures
        !key_lt(h, a, a),
        key_lt(h, a, b) && key_lt(h, b, c) ==> key_lt(h, a, c),
        key_lt(h, a, b) ==> !key_lt(h, b, a),
        !key_lt(h, a, b) && !key_lt(h, b, a) ==> sort_key(h, a) == sort_key(h, b),
{
    lemma_lex_irreflexive(sort_key(h, a));
    if key_lt(h, a, b) && key_lt(h, b, c) {
        lemma_lex_transitive(sort_key(h, a), sort_key(h, b), sort_key(h, c));
    }
    if key_lt(h, a, b) && key_lt(h, b, a) {
        lemma_lex_transitive(sort_key(h, a), sort_key(h, b), sort_key(h, a));
    }
    lemma_lex_total(sort_key(h, a), sort_key(h, b));
}

/// Compares two byte strings lexicographically.
pub(crate) fn bytes_less(a: &[u8], b: &[u8]) -> (r: bool)
    ensures
        r == lex_lt(a@, b@),
{
    let mut i: usize = 0;
    assert(a@.skip(0) =~= a@);
    assert(b@.skip(0) =~= b@);
    while i < a.len() && i < b.len()
        invariant
            i <= a@.len(),
            i <= b@.len(),
            lex_lt(a@, b@) == lex_lt(a@.skip(i as int), b@.skip(i as int)),
        decreases a.len() - i,
    {
        if a[i] != b[i] {
            return a[i] < b[i];
        }
        assert(a@.skip(i as int).drop_first() =~= a@.skip(i + 1));
        assert(b@.skip(i as int).drop_first() =~= b@.skip(i + 1));
        i += 1;
    }
    i < b.len()
}

/// The UTF-8 bytes of `s`.
fn text_bytes(s: &String) -> (r: &[u8])
    ensures
        r@ == encode_utf8(s@),
{
    let t = s.as_str();
    let r = t.as_bytes();
    assert(r@ == t.spec_bytes());
    r
}

/// Whether `a` comes strictly before `b` in the order of column `h`.
pub(crate) fn key_less(h: Header, a: &Book, b: &Book) -> (r: bool)
    ensures
        r == key_lt(h, *a, *b),
{
    match h {
        Header::Author => {
            let ka = text_bytes(&a.author);
            let kb = text_bytes(&b.author);
            bytes_less(ka, kb)
        },
        Header::Title => {
            let ka = text_bytes(&a.title);
            let kb = text_bytes(&b.title);
            bytes_less(ka, kb)
        },
        Header::Weight => {
            proof {
                let ka = seq![a.weight];
                let kb = seq![b.weight];
                assert(ka.drop_first() =~= Seq::<u8>::empty());
                assert(kb.drop_first() =~= Seq::<u8>::empty());
                assert(!lex_lt(ka.drop_first(), kb.drop_first()));
            }
            a.weight < b.weight
        },
        Header::Index => {
            assert(!lex_lt(Seq::empty(), Seq::empty()));
            false
        },
    }
}

} // verus!
