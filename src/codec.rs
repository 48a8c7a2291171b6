use vstd::prelude::*;
use vstd::string::{StrSliceExecFns, StringExecFns};

use crate::peer::strings_view;

verus! {

/// The capability names written one after another, separated by commas.
pub open spec fn joined(caps: Seq<Seq<char>>) -> Seq<char>
    decreases caps.len(),
{
    if caps.len() == 0 {
        Seq::empty()
    } else if caps.len() == 1 {
        caps[0]
    } else {
        joined(caps.drop_last()) + seq![','] + caps.last()
    }
}

/// The pieces of a text between its commas; a text without commas is one
/// piece, the empty text included.
pub open spec fn split_commas(s: Seq<char>) -> Seq<Seq<char>>
    decreases s.len(),
{
    if s.len() == 0 {
        seq![Seq::empty()]
    } else {
        let rest = split_commas(s.drop_last());
        if s.last() == ',' {
            rest.push(Seq::empty())
        } else {
            rest.update(rest.len() - 1, rest.last().push(s.last()))
        }
    }
}

/// No name holds a comma.
pub open spec fn comma_free(caps: Seq<Seq<char>>) -> bool {
    forall|i: int| 0 <= i < caps.len() ==> !caps[i].contains(',')
}

/// The text under which the embedded store keeps a capability list.
pub fn join_capabilities(caps: &Vec<String>) -> (r: String)
    ensures
        r@ == joined(strings_view(caps@)),
{
    let ghost v = strings_view(caps@);
    let mut r = String::new();
    let mut i: usize = 0;
    while i < caps.len()
        invariant
            i <= caps.len(),
            v == strings_view(caps@),
            r@ == joined(v.take(i as int)),
        decreases caps.len() - i,
    {
        if i > 0 {
            proof {
                reveal_strlit(",");
            }
            r.append(",");
        }
        r.append(caps[i].as_str());
        proof {
            let t = v.take(i + 1);
            assert(t.drop_last() =~= v.take(i as int));
            assert(t.last() == caps@[i as int]@);
            if i == 0 {
                assert(r@ =~= joined(t));
            }
        }
        i = i + 1;
    }
    assert(v.take(caps.len() as int) =~= v);
    r
}

/// The capability list kept under a text: its pieces between commas.
pub fn split_capabilities(s: &str) -> (r: Vec<String>)
    ensures
        strings_view(r@) == split_commas(s@),
{
    let n = s.unicode_len();
    let mut pieces: Vec<String> = Vec::new();
    let mut start: usize = 0;
    let mut i: usize = 0;
    proof {
        assert(s@.take(0) =~= Seq::<char>::empty());
        assert(strings_view(pieces@).push(s@.subrange(0, 0)) =~= split_commas(s@.take(0)));
    }
    while i < n
        invariant
            n == s@.len(),
            start <= i <= n,
            split_commas(s@.take(i as int)) == strings_view(pieces@).push(
                s@.subrange(start as int, i as int),
            ),
        decreases n - i,
    {
        let c = s.get_char(i);
        proof {
            assert(s@.take(i + 1).drop_last() =~= s@.take(i as int));
        }
        if c == ',' {
            let piece = s.substring_char(start, i).to_owned();
            pieces.push(piece);
            proof {
                assert(strings_view(pieces@) =~= split_commas(s@.take(i as int)).drop_last().push(
                    s@.subrange(start as int, i as int),
                ));
                assert(s@.subrange(i + 1, i + 1) =~= Seq::<char>::empty());
                assert(split_commas(s@.take(i as int)).drop_last().push(
                    s@.subrange(start as int, i as int),
                ) =~= split_commas(s@.take(i as int)));
            }
            start = i + 1;
        } else {
            proof {
                assert(s@.subrange(start as int, i + 1) =~= s@.subrange(start as int, i as int).push(c));
                assert(strings_view(pieces@).push(s@.subrange(start as int, i + 1)) =~= split_commas(
                    s@.take(i as int),
                ).update(
                    split_commas(s@.take(i as int)).len() - 1,
                    split_commas(s@.take(i as int)).last().push(c),
                ));
            }
        }
        i = i + 1;
    }
    let last = s.substring_char(start, n).to_owned();
    pieces.push(last);
    proof {
        assert(s@.take(n as int) =~= s@);
        assert(strings_view(pieces@) =~= split_commas(s@));
    }
    pieces
}

/// Splitting never yields an empty list.
proof fn lemma_split_nonempty(s: Seq<char>)
    ensures
        split_commas(s).len() >= 1,
    decreases s.len(),
{
    if s.len() > 0 {
        lemma_split_nonempty(s.drop_last());
    }
}

/// Appending text without commas extends the last piece.
proof fn lemma_split_append_plain(x: Seq<char>, y: Seq<char>)
    requires
        !y.contains(','),
    ensures
        split_commas(x + y) == split_commas(x).update(
            split_commas(x).len() - 1,
            split_commas(x).last() + y,
        ),
    decreases y.len(),
{
    lemma_split_nonempty(x);
    let sx = split_commas(x);
    if y.len() == 0 {
        assert(x + y =~= x);
        assert(sx.last() + y =~= sx.last());
        assert(sx.update(sx.len() - 1, sx.last()) =~= sx);
    } else {
        let y0 = y.drop_last();
        assert(!y0.contains(',')) by {
            if y0.contains(',') {
                let j = choose|j: int| 0 <= j < y0.len() && y0[j] == ',';
                assert(y[j] == ',');
            }
        }
        lemma_split_append_plain(x, y0);
        assert((x + y).drop_last() =~= x + y0);
        assert((x + y).last() == y.last());
        assert(y.last() != ',') by {
            assert(y[y.len() - 1] == y.last());
        }
        assert((sx.last() + y0).push(y.last()) =~= sx.last() + y);
        assert(split_commas(x + y) =~= sx.update(sx.len() - 1, sx.last() + y));
    }
}

/// A non-empty list of names without commas reads back from its joined text
/// as the same list.
pub proof fn capabilities_round_trip(caps: Seq<Seq<char>>)
    requires
        caps.len() >= 1,
        comma_free(caps),
    ensures
        split_commas(joined(caps)) == caps,
    decreases caps.len(),
{
    let e = Seq::<char>::empty();
    let last = caps.last();
    assert(!last.contains(',')) by {
        assert(caps[caps.len() - 1] == last);
    }
    if caps.len() == 1 {
        lemma_split_append_plain(e, last);
        assert(e + last =~= last);
        assert(split_commas(e) == seq![e]);
        assert(seq![e].update(0, e + last) =~= caps);
    } else {
        let front = caps.drop_last();
        assert(comma_free(front)) by {
            assert forall|i: int| 0 <= i < front.len() implies !front[i].contains(',') by {
                assert(front[i] == caps[i]);
            }
        }
        capabilities_round_trip(front);
        let head = joined(front) + seq![','];
        assert(head.drop_last() =~= joined(front));
        assert(split_commas(head) == front.push(e));
        lemma_split_append_plain(head, last);
        assert(e + last =~= last);
        assert(front.push(e).update(front.len() as int, e + last) =~= caps);
    }
}

} // verus!
