//! Numbers as decimal text.

use vstd::prelude::*;

verus! {

/// The character of one decimal digit.
pub open spec fn digit(d: nat) -> char {
    if d == 0 {
        '0'
    } else if d == 1 {
        '1'
    } else if d == 2 {
        '2'
    } else if d == 3 {
        '3'
    } else if d == 4 {
        '4'
    } else if d == 5 {
        '5'
    } else if d == 6 {
        '6'
    } else if d == 7 {
        '7'
    } else if d == 8 {
        '8'
    } else {
        '9'
    }
}

/// The decimal digits of a natural number, without leading zeros.
pub open spec fn digits(n: nat) -> Seq<char>
    decreases n,
{
    if n < 10 {
        seq![digit(n)]
    } else {
        digits(n / 10).push(digit(n % 10))
    }
}

/// The decimal text of an integer: a minus sign where it is negative, then
/// the digits of its magnitude.
pub open spec fn decimal(n: int) -> Seq<char> {
    if n < 0 {
        seq!['-'] + digits((-n) as nat)
    } else {
        digits(n as nat)
    }
}

/// Calls `ToString::to_string` on an `i128`. The contract claims that the
/// text is the number in decimal, with a minus sign where it is negative and
/// no sign, padding or leading zero otherwise.
#[verifier::external_body]
pub(crate) fn i128_to_string(n: i128) -> (text: String)
    ensures
        text@ == decimal(n as int),
{
    n.to_string()
}

/// The texts of a list, one after the other with `separator` between each two.
pub open spec fn joined_with(texts: Seq<Seq<char>>, separator: Seq<char>) -> Seq<char>
    decreases texts.len(),
{
    if texts.len() == 0 {
        Seq::empty()
    } else if texts.len() == 1 {
        texts[0]
    } else {
        joined_with(texts.drop_last(), separator) + separator + texts.last()
    }
}

/// The views of a list of strings, in the same order.
pub open spec fn views(texts: Seq<String>) -> Seq<Seq<char>> {
    texts.map_values(|t: String| t@)
}

/// Joins the texts of a list with `separator` between each two.
pub fn join(texts: &Vec<String>, separator: &str) -> (joined: String)
    ensures
        joined@ == joined_with(views(texts@), separator@),
{
    let mut joined = String::new();
    let mut i: usize = 0;
    assert(views(texts@).take(0) =~= Seq::<Seq<char>>::empty());
    while i < texts.len()
        invariant
            i <= texts.len(),
            joined@ == joined_with(views(texts@).take(i as int), separator@),
        decreases texts.len() - i,
    {
        proof {
            let next = views(texts@).take(i + 1);
            assert(next.drop_last() =~= views(texts@).take(i as int));
            assert(next.last() == texts@[i as int]@);
            if i == 0 {
                assert(next[0] == texts@[0]@);
                assert(Seq::<char>::empty() + texts@[0]@ =~= texts@[0]@);
            }
        }
        if i > 0 {
            joined.append(separator);
        }
        joined.append(texts[i].as_str());
        i += 1;
    }
    assert(views(texts@).take(i as int) =~= views(texts@));
    joined
}

/// The names of a sequence, each once, in the order in which they first occur.
pub open spec fn distinct(names: Seq<Seq<char>>) -> Seq<Seq<char>>
    decreases names.len(),
{
    if names.len() == 0 {
        Seq::empty()
    } else {
        let before = distinct(names.drop_last());
        if before.contains(names.last()) {
            before
        } else {
            before.push(names.last())
        }
    }
}

/// The distinct names hold a name exactly where the sequence holds it.
pub proof fn lemma_distinct_holds(names: Seq<Seq<char>>, name: Seq<char>)
    ensures
        distinct(names).contains(name) <==> names.contains(name),
    decreases names.len(),
{
    if names.len() > 0 {
        let rest = names.drop_last();
        let before = distinct(rest);
        let after = distinct(names);
        lemma_distinct_holds(rest, name);
        if names.contains(name) {
            let i = choose|i: int| 0 <= i < names.len() && names[i] == name;
            if i < rest.len() {
                assert(rest[i] == name);
                assert(rest.contains(name));
                let k = choose|k: int| 0 <= k < before.len() && before[k] == name;
                assert(after[k] == name);
            } else if before.contains(names.last()) {
                assert(after.contains(name));
            } else {
                assert(after[before.len() as int] == name);
            }
        }
        if after.contains(name) {
            let k = choose|k: int| 0 <= k < after.len() && after[k] == name;
            if k < before.len() {
                assert(before[k] == name);
                assert(before.contains(name));
                let i = choose|i: int| 0 <= i < rest.len() && rest[i] == name;
                assert(names[i] == name);
            } else {
                assert(names[names.len() - 1] == name);
            }
        }
    }
}

/// The distinct names hold no name twice.
pub proof fn lemma_distinct_has_no_duplicates(names: Seq<Seq<char>>)
    ensures
        distinct(names).no_duplicates(),
    decreases names.len(),
{
    if names.len() > 0 {
        lemma_distinct_has_no_duplicates(names.drop_last());
    }
}

/// Whether `names` holds `name`.
fn holds_text(names: &Vec<String>, name: &String) -> (held: bool)
    ensures
        held == views(names@).contains(name@),
{
    let mut i: usize = 0;
    while i < names.len()
        invariant
            i <= names.len(),
            forall|k: int| 0 <= k < i ==> views(names@)[k] != name@,
        decreases names.len() - i,
    {
        if names[i] == *name {
            assert(views(names@)[i as int] == name@);
            return true;
        }
        i += 1;
    }
    false
}

/// The texts of a list, each once, in the order in which they first occur.
pub fn distinct_texts(texts: &Vec<String>) -> (kept: Vec<String>)
    ensures
        views(kept@) == distinct(views(texts@)),
{
    let ghost all = views(texts@);
    let mut kept: Vec<String> = Vec::new();
    let mut i: usize = 0;
    assert(all.take(0) =~= Seq::<Seq<char>>::empty());
    assert(views(kept@) =~= distinct(all.take(0)));
    while i < texts.len()
        invariant
            i <= texts.len(),
            all == views(texts@),
            views(kept@) == distinct(all.take(i as int)),
        decreases texts.len() - i,
    {
        let text = &texts[i];
        proof {
            assert(all.take(i + 1).drop_last() =~= all.take(i as int));
            assert(all.take(i + 1).last() == text@);
        }
        if !holds_text(&kept, text) {
            let ghost before = kept@;
            kept.push(text.clone());
            assert(views(kept@) =~= views(before).push(text@));
        }
        i += 1;
    }
    assert(all.take(i as int) =~= all);
    kept
}

} // verus!
