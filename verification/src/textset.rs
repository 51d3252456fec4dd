//! A set of texts, kept in order so that membership is found by halving.

use crate::text::{
    compare_text, lemma_lex_asymmetric, lemma_lex_transitive, text_lt, texts_of, Order,
};
use vstd::prelude::*;
use vstd::string::*;
use vstd::utf8::*;

verus! {

/// Whether each text comes strictly before all that follow it.
pub open spec fn ascending(texts: Seq<String>) -> bool {
    forall|i: int, j: int| 0 <= i < j < texts.len() ==> text_lt(#[trigger] texts[i]@, #[trigger] texts[j]@)
}

/// Whether `text` comes before every one of `texts` from `from` on.
pub open spec fn before_rest(text: Seq<char>, texts: Seq<Seq<char>>, from: int) -> bool {
    forall|x: int| from <= x < texts.len() ==> text_lt(text, #[trigger] texts[x])
}

/// Whether `text` is one of `texts` at a position from `from` up to, but
/// not including, `to`.
pub open spec fn found_between(texts: Seq<Seq<char>>, from: int, to: int, text: Seq<char>) -> bool {
    exists|x: int| from <= x < to && 0 <= x < texts.len() && #[trigger] texts[x] == text
}

/// The order of text is transitive.
proof fn lemma_text_lt_transitive(a: Seq<char>, b: Seq<char>, c: Seq<char>)
    requires
        text_lt(a, b),
        text_lt(b, c),
    ensures
        text_lt(a, c),
{
    lemma_lex_transitive(encode_utf8(a), encode_utf8(b), encode_utf8(c));
}

/// Merges two lists of texts that are in order and hold nothing twice into
/// one such list, which holds what either holds.
pub fn merge_texts(a: &Vec<String>, b: &Vec<String>) -> (merged: Vec<String>)
    requires
        ascending(a@),
        ascending(b@),
    ensures
        ascending(merged@),
        forall|text: Seq<char>|
            texts_of(merged@).contains(text) <==> texts_of(a@).contains(text) || texts_of(
                b@,
            ).contains(text),
{
    let ghost left = texts_of(a@);
    let ghost right = texts_of(b@);
    let mut merged: Vec<String> = Vec::new();
    let mut i: usize = 0;
    let mut j: usize = 0;
    while i < a.len() || j < b.len()
        invariant
            left == texts_of(a@),
            right == texts_of(b@),
            i <= a.len(),
            j <= b.len(),
            ascending(a@),
            ascending(b@),
            ascending(merged@),
            forall|k: int|
                0 <= k < merged@.len() ==> before_rest(#[trigger] texts_of(merged@)[k], left, i as int),
            forall|k: int|
                0 <= k < merged@.len() ==> before_rest(
                    #[trigger] texts_of(merged@)[k],
                    right,
                    j as int,
                ),
            forall|text: Seq<char>|
                texts_of(merged@).contains(text) <==> found_between(left, 0, i as int, text)
                    || found_between(right, 0, j as int, text),
        decreases a.len() - i + b.len() - j,
    {
        let ghost before = texts_of(merged@);
        let ghost i0 = i as int;
        let ghost j0 = j as int;
        let order = if i >= a.len() {
            Order::Greater
        } else if j >= b.len() {
            Order::Less
        } else {
            compare_text(a[i].as_str(), b[j].as_str())
        };
        let next = match order {
            Order::Less => {
                let next = a[i].clone();
                i += 1;
                next
            },
            Order::Greater => {
                let next = b[j].clone();
                j += 1;
                next
            },
            Order::Equal => {
                let next = a[i].clone();
                i += 1;
                j += 1;
                next
            },
        };
        merged.push(next);
        proof {
            let after = texts_of(merged@);
            let e = next@;
            assert(after =~= before.push(e));
            if i0 < left.len() {
                assert(left[i0] == a@[i0]@);
            }
            if j0 < right.len() {
                assert(right[j0] == b@[j0]@);
            }
            assert forall|x: int, y: int| 0 <= x < y < merged@.len() implies text_lt(
                #[trigger] merged@[x]@,
                #[trigger] merged@[y]@,
            ) by {
                assert(after[x] == merged@[x]@);
                assert(after[y] == merged@[y]@);
                if y == before.len() {
                    assert(after[x] == before[x]);
                    assert(before_rest(before[x], left, i0));
                    assert(before_rest(before[x], right, j0));
                } else {
                    assert(after[x] == before[x]);
                    assert(after[y] == before[y]);
                }
            }
            assert forall|k: int| 0 <= k < after.len() implies before_rest(
                #[trigger] after[k],
                left,
                i as int,
            ) by {
                if k < before.len() {
                    assert(after[k] == before[k]);
                    assert(before_rest(before[k], left, i0));
                } else {
                    assert forall|x: int| i <= x < left.len() implies text_lt(
                        e,
                        #[trigger] left[x],
                    ) by {
                        if i0 < left.len() && e == left[i0] {
                            assert(left[x] == a@[x]@);
                        } else {
                            if x > i0 {
                                assert(left[x] == a@[x]@);
                                assert(left[i0] == a@[i0]@);
                                lemma_text_lt_transitive(e, left[i0], left[x]);
                            }
                        }
                    }
                }
            }
            assert forall|k: int| 0 <= k < after.len() implies before_rest(
                #[trigger] after[k],
                right,
                j as int,
            ) by {
                if k < before.len() {
                    assert(after[k] == before[k]);
                    assert(before_rest(before[k], right, j0));
                } else {
                    assert forall|y: int| j <= y < right.len() implies text_lt(
                        e,
                        #[trigger] right[y],
                    ) by {
                        if j0 < right.len() && e == right[j0] {
                            assert(right[y] == b@[y]@);
                        } else {
                            if y > j0 {
                                assert(right[y] == b@[y]@);
                                assert(right[j0] == b@[j0]@);
                                lemma_text_lt_transitive(e, right[j0], right[y]);
                            }
                        }
                    }
                }
            }
            assert forall|text: Seq<char>| after.contains(text) <==> found_between(
                left,
                0,
                i as int,
                text,
            ) || found_between(right, 0, j as int, text) by {
                if after.contains(text) {
                    let k = choose|k: int| 0 <= k < after.len() && after[k] == text;
                    if k < before.len() {
                        assert(before[k] == text);
                        assert(before.contains(text));
                        if found_between(left, 0, i0, text) {
                            let x = choose|x: int|
                                0 <= x < i0 && 0 <= x < left.len() && #[trigger] left[x] == text;
                            assert(found_between(left, 0, i as int, text));
                        } else {
                            let y = choose|y: int|
                                0 <= y < j0 && 0 <= y < right.len() && #[trigger] right[y] == text;
                            assert(found_between(right, 0, j as int, text));
                        }
                    } else {
                        if i > i0 && e == left[i0] {
                            assert(found_between(left, 0, i as int, text));
                        } else {
                            assert(right[j0] == text);
                            assert(found_between(right, 0, j as int, text));
                        }
                    }
                }
                if found_between(left, 0, i as int, text) {
                    let x = choose|x: int|
                        0 <= x < i && 0 <= x < left.len() && #[trigger] left[x] == text;
                    if x < i0 {
                        assert(found_between(left, 0, i0, text));
                        assert(before.contains(text));
                        let k = choose|k: int| 0 <= k < before.len() && before[k] == text;
                        assert(after[k] == text);
                    } else {
                        assert(after[before.len() as int] == text);
                    }
                }
                if found_between(right, 0, j as int, text) {
                    let y = choose|y: int|
                        0 <= y < j && 0 <= y < right.len() && #[trigger] right[y] == text;
                    if y < j0 {
                        assert(found_between(right, 0, j0, text));
                        assert(before.contains(text));
                        let k = choose|k: int| 0 <= k < before.len() && before[k] == text;
                        assert(after[k] == text);
                    } else {
                        assert(after[before.len() as int] == text);
                    }
                }
            }
        }
    }
    proof {
        let after = texts_of(merged@);
        assert forall|text: Seq<char>| after.contains(text) <==> left.contains(text)
            || right.contains(text) by {
            if left.contains(text) {
                let x = choose|x: int| 0 <= x < left.len() && left[x] == text;
                assert(found_between(left, 0, i as int, text));
            }
            if right.contains(text) {
                let y = choose|y: int| 0 <= y < right.len() && right[y] == text;
                assert(found_between(right, 0, j as int, text));
            }
            if found_between(left, 0, i as int, text) {
                let x = choose|x: int|
                    0 <= x < i && 0 <= x < left.len() && #[trigger] left[x] == text;
                assert(left.contains(text));
            }
            if found_between(right, 0, j as int, text) {
                let y = choose|y: int|
                    0 <= y < j && 0 <= y < right.len() && #[trigger] right[y] == text;
                assert(right.contains(text));
            }
        }
    }
    merged
}

/// Sorts the texts between two positions and drops what occurs twice.
fn sort_range(texts: &Vec<String>, from: usize, to: usize) -> (sorted: Vec<String>)
    requires
        from <= to <= texts.len(),
    ensures
        ascending(sorted@),
        forall|text: Seq<char>|
            texts_of(sorted@).contains(text) <==> found_between(
                texts_of(texts@),
                from as int,
                to as int,
                text,
            ),
    decreases to - from,
{
    let ghost all = texts_of(texts@);
    if to - from == 0 {
        let sorted: Vec<String> = Vec::new();
        proof {
            assert(texts_of(sorted@) =~= Seq::<Seq<char>>::empty());
        }
        sorted
    } else if to - from == 1 {
        let mut sorted: Vec<String> = Vec::new();
        sorted.push(texts[from].clone());
        proof {
            let one = texts_of(sorted@);
            assert(one =~= seq![all[from as int]]);
            assert forall|text: Seq<char>| one.contains(text) <==> found_between(
                all,
                from as int,
                to as int,
                text,
            ) by {
                if one.contains(text) {
                    assert(all[from as int] == text);
                }
                if found_between(all, from as int, to as int, text) {
                    assert(one[0] == text);
                }
            }
        }
        sorted
    } else {
        let middle = from + (to - from) / 2;
        let left = sort_range(texts, from, middle);
        let right = sort_range(texts, middle, to);
        let sorted = merge_texts(&left, &right);
        proof {
            let merged = texts_of(sorted@);
            assert forall|text: Seq<char>| merged.contains(text) <==> found_between(
                all,
                from as int,
                to as int,
                text,
            ) by {
                if found_between(all, from as int, to as int, text) {
                    let x = choose|x: int|
                        from <= x < to && 0 <= x < all.len() && #[trigger] all[x] == text;
                    if x < middle {
                        assert(found_between(all, from as int, middle as int, text));
                    } else {
                        assert(found_between(all, middle as int, to as int, text));
                    }
                }
                if found_between(all, from as int, middle as int, text) {
                    let x = choose|x: int|
                        from <= x < middle && 0 <= x < all.len() && #[trigger] all[x] == text;
                    assert(found_between(all, from as int, to as int, text));
                }
                if found_between(all, middle as int, to as int, text) {
                    let x = choose|x: int|
                        middle <= x < to && 0 <= x < all.len() && #[trigger] all[x] == text;
                    assert(found_between(all, from as int, to as int, text));
                }
            }
        }
        sorted
    }
}

/// A set of texts.
pub struct TextSet {
    members: Vec<String>,
}

impl View for TextSet {
    type V = Set<Seq<char>>;

    closed spec fn view(&self) -> Set<Seq<char>> {
        Set::new(|text: Seq<char>| exists|i: int| 0 <= i < self.members@.len() && self.members@[i]@ == text)
    }
}

impl TextSet {
    /// Whether the members are held in ascending order, as every set made
    /// and changed by the functions below is.
    pub closed spec fn well_formed(&self) -> bool {
        ascending(self.members@)
    }

    /// The number of members, which is finite.
    pub closed spec fn size(&self) -> nat {
        self.members@.len()
    }

    /// The empty set.
    pub fn new() -> (set: TextSet)
        ensures
            set.well_formed(),
            set@ == Set::<Seq<char>>::empty(),
            set.size() == 0,
    {
        let set = TextSet { members: Vec::new() };
        assert(set@ =~= Set::<Seq<char>>::empty());
        set
    }

    /// The member at a position, the members counted in their order.
    pub closed spec fn member(&self, at: int) -> Seq<char> {
        self.members@[at]@
    }

    /// The set of the texts of a list.
    pub fn from_texts(texts: &Vec<String>) -> (set: TextSet)
        ensures
            set.well_formed(),
            forall|text: Seq<char>| set@.contains(text) <==> texts_of(texts@).contains(text),
    {
        let members = sort_range(texts, 0, texts.len());
        let set = TextSet { members };
        proof {
            let all = texts_of(texts@);
            let held = texts_of(set.members@);
            assert forall|text: Seq<char>| set@.contains(text) <==> all.contains(text) by {
                if set@.contains(text) {
                    let i = choose|i: int| 0 <= i < set.members@.len() && set.members@[i]@ == text;
                    assert(held[i] == text);
                    assert(held.contains(text));
                    let x = choose|x: int|
                        0 <= x < texts.len() && 0 <= x < all.len() && #[trigger] all[x] == text;
                    assert(all.contains(text));
                }
                if all.contains(text) {
                    let x = choose|x: int| 0 <= x < all.len() && all[x] == text;
                    assert(found_between(all, 0, texts.len() as int, text));
                    assert(held.contains(text));
                    let i = choose|i: int| 0 <= i < held.len() && held[i] == text;
                    assert(set.members@[i]@ == text);
                }
            }
        }
        set
    }

    /// The members are the texts that the set holds, each at one position.
    pub proof fn lemma_members(&self)
        requires
            self.well_formed(),
        ensures
            forall|at: int| 0 <= at < self.size() ==> self@.contains(#[trigger] self.member(at)),
            forall|text: Seq<char>|
                self@.contains(text) ==> exists|at: int|
                    0 <= at < self.size() && self.member(at) == text,
            forall|a: int, b: int|
                0 <= a < b < self.size() ==> self.member(a) != self.member(b),
    {
        assert forall|a: int, b: int| 0 <= a < b < self.size() implies self.member(a)
            != self.member(b) by {
            lemma_lex_asymmetric(encode_utf8(self.member(a)), encode_utf8(self.member(b)));
        }
        assert forall|text: Seq<char>| self@.contains(text) implies exists|at: int|
            0 <= at < self.size() && self.member(at) == text by {
            let i = choose|i: int| 0 <= i < self.members@.len() && self.members@[i]@ == text;
            assert(0 <= i < self.size() && self.member(i) == text);
        }
    }

    /// The position of `text` among the members, where it is one.
    pub fn index_of(&self, text: &str) -> (at: Option<usize>)
        requires
            self.well_formed(),
        ensures
            match at {
                Some(found) => found < self.size() && self.member(found as int) == text@,
                None => !self@.contains(text@),
            },
    {
        let (at, found) = self.position(text);
        if found {
            Some(at)
        } else {
            None
        }
    }

    /// The number of members.
    pub fn len(&self) -> (count: usize)
        ensures
            count == self.size(),
    {
        self.members.len()
    }

    /// Finds where `text` stands among the members: the number of members
    /// that come before it, and whether it is a member itself.
    fn position(&self, text: &str) -> (found: (usize, bool))
        requires
            self.well_formed(),
        ensures
            found.0 <= self.members@.len(),
            forall|k: int| 0 <= k < found.0 ==> text_lt(#[trigger] self.members@[k]@, text@),
            found.1 ==> found.0 < self.members@.len() && self.members@[found.0 as int]@ == text@,
            !found.1 ==> forall|k: int|
                found.0 <= k < self.members@.len() ==> text_lt(text@, #[trigger] self.members@[k]@),
            found.1 == self@.contains(text@),
    {
        let mut low: usize = 0;
        let mut high: usize = self.members.len();
        while low < high
            invariant
                low <= high <= self.members@.len(),
                ascending(self.members@),
                forall|k: int| 0 <= k < low ==> text_lt(#[trigger] self.members@[k]@, text@),
                forall|k: int|
                    high <= k < self.members@.len() ==> text_lt(text@, #[trigger] self.members@[k]@),
            decreases high - low,
        {
            let middle = low + (high - low) / 2;
            match compare_text(self.members[middle].as_str(), text) {
                Order::Less => {
                    proof {
                        assert forall|k: int| 0 <= k < middle + 1 implies text_lt(
                            #[trigger] self.members@[k]@,
                            text@,
                        ) by {
                            if k < middle {
                                lemma_lex_transitive(
                                    encode_utf8(self.members@[k]@),
                                    encode_utf8(self.members@[middle as int]@),
                                    encode_utf8(text@),
                                );
                            }
                        }
                    }
                    low = middle + 1;
                },
                Order::Greater => {
                    proof {
                        assert forall|k: int| middle <= k < self.members@.len() implies text_lt(
                            text@,
                            #[trigger] self.members@[k]@,
                        ) by {
                            if k > middle {
                                lemma_lex_transitive(
                                    encode_utf8(text@),
                                    encode_utf8(self.members@[middle as int]@),
                                    encode_utf8(self.members@[k]@),
                                );
                            }
                        }
                    }
                    high = middle;
                },
                Order::Equal => {
                    return (middle, true);
                },
            }
        }
        proof {
            if self@.contains(text@) {
                let i = choose|i: int| 0 <= i < self.members@.len() && self.members@[i]@ == text@;
                lemma_lex_asymmetric(encode_utf8(text@), encode_utf8(text@));
            }
        }
        (low, false)
    }

    /// Whether `text` is a member.
    pub fn contains(&self, text: &str) -> (found: bool)
        requires
            self.well_formed(),
        ensures
            found == self@.contains(text@),
    {
        self.position(text).1
    }

    /// Adds `text`, and says whether it was new.
    pub fn insert(&mut self, text: String) -> (added: bool)
        requires
            old(self).well_formed(),
        ensures
            final(self).well_formed(),
            final(self)@ == old(self)@.insert(text@),
            added == !old(self)@.contains(text@),
            final(self).size() == old(self).size() + (if added {
                1nat
            } else {
                0nat
            }),
    {
        let (at, found) = self.position(text.as_str());
        if found {
            assert(self@ =~= old(self)@.insert(text@));
            return false;
        }
        let ghost before = self.members@;
        self.members.insert(at, text);
        proof {
            let after = self.members@;
            assert forall|i: int, j: int| 0 <= i < j < after.len() implies text_lt(
                #[trigger] after[i]@,
                #[trigger] after[j]@,
            ) by {
                let x = if i < at {
                    i
                } else {
                    i - 1
                };
                let y = if j < at {
                    j
                } else {
                    j - 1
                };
                if i != at && j != at {
                    assert(after[i] == before[x]);
                    assert(after[j] == before[y]);
                } else if i == at {
                    assert(after[j] == before[y]);
                } else {
                    assert(after[i] == before[x]);
                }
            }
            assert forall|t: Seq<char>| self@.contains(t) == old(self)@.insert(text@).contains(
                t,
            ) by {
                if old(self)@.contains(t) {
                    let i = choose|i: int| 0 <= i < before.len() && before[i]@ == t;
                    let k = if i < at {
                        i
                    } else {
                        i + 1
                    };
                    assert(after[k]@ == t);
                }
                if t == text@ {
                    assert(after[at as int]@ == t);
                }
                if self@.contains(t) {
                    let k = choose|k: int| 0 <= k < after.len() && after[k]@ == t;
                    if k < at {
                        assert(before[k]@ == t);
                    } else if k > at {
                        assert(before[k - 1]@ == t);
                    }
                }
            }
            assert(self@ =~= old(self)@.insert(text@));
        }
        true
    }

    /// Takes `text` out, and says whether it was a member.
    pub fn remove(&mut self, text: &str) -> (removed: bool)
        requires
            old(self).well_formed(),
        ensures
            final(self).well_formed(),
            final(self)@ == old(self)@.remove(text@),
            removed == old(self)@.contains(text@),
            final(self).size() == old(self).size() - (if removed {
                1nat
            } else {
                0nat
            }),
    {
        let (at, found) = self.position(text);
        if !found {
            assert(self@ =~= old(self)@.remove(text@));
            return false;
        }
        let ghost before = self.members@;
        let _ = self.members.remove(at);
        proof {
            let after = self.members@;
            assert forall|i: int, j: int| 0 <= i < j < after.len() implies text_lt(
                #[trigger] after[i]@,
                #[trigger] after[j]@,
            ) by {
                let x = if i < at {
                    i
                } else {
                    i + 1
                };
                let y = if j < at {
                    j
                } else {
                    j + 1
                };
                assert(after[i] == before[x]);
                assert(after[j] == before[y]);
            }
            assert forall|t: Seq<char>| self@.contains(t) == old(self)@.remove(text@).contains(
                t,
            ) by {
                if old(self)@.contains(t) && t != text@ {
                    let i = choose|i: int| 0 <= i < before.len() && before[i]@ == t;
                    let k = if i < at {
                        i
                    } else {
                        i - 1
                    };
                    assert(after[k]@ == t);
                }
                if self@.contains(t) {
                    let k = choose|k: int| 0 <= k < after.len() && after[k]@ == t;
                    let i = if k < at {
                        k
                    } else {
                        k + 1
                    };
                    assert(before[i]@ == t);
                    if t == text@ {
                        if i < at {
                            lemma_lex_asymmetric(encode_utf8(t), encode_utf8(t));
                        } else {
                            lemma_lex_asymmetric(encode_utf8(t), encode_utf8(t));
                        }
                    }
                }
            }
            assert(self@ =~= old(self)@.remove(text@));
        }
        true
    }
}

} // verus!
