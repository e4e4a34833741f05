use vstd::prelude::*;

use crate::value::{show, show_all, values_view, lemma_values_view, Value};

verus! {

/// The decimal digit for `d` (below ten).
pub open spec fn digit_char(d: nat) -> char {
    seq!['0', '1', '2', '3', '4', '5', '6', '7', '8', '9'][d as int]
}

/// The decimal text of a natural number, without leading zeros.
pub open spec fn nat_text(n: nat) -> Seq<char>
    decreases n,
{
    if n < 10 {
        seq![digit_char(n)]
    } else {
        nat_text(n / 10) + seq![digit_char(n % 10)]
    }
}

/// The decimal text of an integer, with a leading `-` when negative.
pub open spec fn int_text(n: int) -> Seq<char> {
    if n < 0 {
        seq!['-'] + nat_text((-n) as nat)
    } else {
        nat_text(n as nat)
    }
}

/// The names, separated by single spaces.
pub open spec fn join_views(names: Seq<Seq<char>>) -> Seq<char>
    decreases names.len(),
{
    if names.len() == 0 {
        Seq::empty()
    } else if names.len() == 1 {
        names[0]
    } else {
        join_views(names.drop_last()) + seq![' '] + names.last()
    }
}

/// The decimal text of a 64-bit integer, with a leading `-` when negative.
pub fn int_text_exec(n: i64) -> (r: String)
    ensures
        r@ == int_text(n as int),
{
    if n < 0 {
        let m: u64 = (-(n as i128)) as u64;
        let digits = nat_text_exec(m);
        let mut r = String::new();
        r.append("-");
        r.append(digits.as_str());
        proof {
            reveal_strlit("-");
            assert(r@ =~= int_text(n as int));
        }
        r
    } else {
        nat_text_exec(n as u64)
    }
}

pub fn nat_text_exec(n: u64) -> (r: String)
    ensures
        r@ == nat_text(n as nat),
    decreases n,
{
    let digits = "0123456789";
    let d: usize = (n % 10) as usize;
    proof {
        reveal_strlit("0123456789");
    }
    let last = digits.substring_char(d, d + 1);
    if n < 10 {
        let r = last.to_owned();
        proof {
            assert(r@ =~= nat_text(n as nat));
        }
        r
    } else {
        let mut r = nat_text_exec(n / 10);
        r.append(last);
        proof {
            assert(r@ =~= nat_text(n as nat));
        }
        r
    }
}

/// The texts of the values, separated by single spaces.
pub fn intersperse(xs: &[Value]) -> (r: String)
    ensures
        r@ == show_all(values_view(xs@)),
    decreases xs@, 0nat,
{
    proof {
        lemma_values_view(xs@);
    }
    let mut r = String::new();
    let mut i: usize = 0;
    while i < xs.len()
        invariant
            i <= xs.len(),
            values_view(xs@).len() == xs@.len(),
            forall|j: int| 0 <= j < xs@.len() ==> #[trigger] values_view(xs@)[j] == xs@[j]@,
            r@ == show_all(values_view(xs@).subrange(0, i as int)),
        decreases xs.len() - i,
    {
        proof {
            assert(decreases_to!(xs@ => xs@[i as int]));
        }
        let t = xs[i].to_string();
        if i > 0 {
            r.append(" ");
        }
        r.append(t.as_str());
        proof {
            reveal_strlit(" ");
            let pre = values_view(xs@).subrange(0, i as int);
            let next = values_view(xs@).subrange(0, i + 1);
            assert(next.drop_last() =~= pre);
            assert(r@ =~= show_all(next));
        }
        i = i + 1;
    }
    proof {
        assert(values_view(xs@).subrange(0, xs@.len() as int) =~= values_view(xs@));
    }
    r
}

/// The names, separated by single spaces.
pub fn join_names(names: &[String]) -> (r: String)
    ensures
        r@ == join_views(names@.map_values(|s: String| s@)),
{
    let ghost views = names@.map_values(|s: String| s@);
    let mut r = String::new();
    let mut i: usize = 0;
    while i < names.len()
        invariant
            i <= names.len(),
            views == names@.map_values(|s: String| s@),
            r@ == join_views(views.subrange(0, i as int)),
        decreases names.len() - i,
    {
        if i > 0 {
            r.append(" ");
        }
        r.append(names[i].as_str());
        proof {
            reveal_strlit(" ");
            let next = views.subrange(0, i + 1);
            assert(next.drop_last() =~= views.subrange(0, i as int));
            assert(r@ =~= join_views(next));
        }
        i = i + 1;
    }
    proof {
        assert(views.subrange(0, names@.len() as int) =~= views);
    }
    r
}

} // verus!
