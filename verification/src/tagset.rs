//! A set of tags kept in ascending order, each tag once.

use vstd::prelude::*;
use vstd::string::*;
use crate::order::{compare_text, lemma_lex_transitive, lex_lt, TextOrder};

verus! {

/// Every element comes strictly before every later one: the sequence is
/// sorted and holds no element twice.
pub open spec fn strictly_increasing(s: Seq<Seq<char>>) -> bool {
    forall|i: int, j: int| 0 <= i < j < s.len() ==> lex_lt(#[trigger] s[i], #[trigger] s[j])
}

/// The contents of a sequence of strings.
pub open spec fn string_views(s: Seq<String>) -> Seq<Seq<char>> {
    s.map_values(|t: String| t@)
}

/// An ordered set of tags. Its view is the tags in ascending order.
///
/// The tags are kept in a `Vec` under a proved invariant rather than in a
/// `BTreeSet<String>`: vstd's specification of `BTreeSet` says what
/// `insert`, `contains` and iteration do only for keys whose order obeys its
/// comparison specification, and it gives `String` none, so nothing about
/// such a set's contents could be proved: after inserting a `String` into a
/// `BTreeSet<String>`, Verus cannot show that the set contains it.
#[derive(Debug)]
pub struct TagSet {
    tags: Vec<String>,
}

impl View for TagSet {
    type V = Seq<Seq<char>>;

    closed spec fn view(&self) -> Seq<Seq<char>> {
        string_views(self.tags@)
    }
}

impl TagSet {
    #[verifier::type_invariant]
    closed spec fn sorted(self) -> bool {
        strictly_increasing(self@)
    }

    /// The empty set.
    pub fn new() -> (s: TagSet)
        ensures
            s@ == Seq::<Seq<char>>::empty(),
            strictly_increasing(s@),
    {
        let s = TagSet { tags: Vec::new() };
        assert(s@ =~= Seq::<Seq<char>>::empty());
        s
    }

    /// The number of tags.
    pub fn len(&self) -> (n: usize)
        ensures
            n == self@.len(),
    {
        self.tags.len()
    }

    /// The tag at position `i` in ascending order.
    pub fn get(&self, i: usize) -> (t: &String)
        requires
            i < self@.len(),
        ensures
            t@ == self@[i as int],
    {
        &self.tags[i]
    }

    /// Whether `tag` is in the set.
    pub fn contains(&self, tag: &str) -> (r: bool)
        ensures
            r == self@.contains(tag@),
    {
        let n = self.tags.len();
        let mut i: usize = 0;
        while i < n
            invariant
                i <= n,
                n == self@.len(),
                forall|k: int| 0 <= k < i ==> self@[k] != tag@,
            decreases n - i,
        {
            let found = match compare_text(self.tags[i].as_str(), tag) {
                TextOrder::Equal => true,
                _ => false,
            };
            if found {
                assert(self@[i as int] == tag@);
                return true;
            }
            i = i + 1;
        }
        false
    }

    /// The tags in ascending order, none twice.
    pub fn to_vec(&self) -> (v: Vec<String>)
        ensures
            string_views(v@) == self@,
            strictly_increasing(self@),
    {
        proof {
            use_type_invariant(self);
        }
        let n = self.tags.len();
        let mut v: Vec<String> = Vec::new();
        let mut i: usize = 0;
        while i < n
            invariant
                i <= n,
                n == self@.len(),
                string_views(v@) == self@.take(i as int),
            decreases n - i,
        {
            let t = self.tags[i].clone();
            assert(t@ == self@[i as int]);
            let ghost before = v@;
            assert(string_views(before).len() == before.len());
            assert(before.len() == i);
            v.push(t);
            assert(v@ == before.push(t));
            assert forall|k: int| 0 <= k < i + 1 implies #[trigger] string_views(v@)[k]
                == self@.take(i + 1)[k] by {
                if k < i {
                    assert(v@[k] == before[k]);
                    assert(string_views(before)[k] == self@.take(i as int)[k]);
                }
            }
            assert(string_views(v@) =~= self@.take(i + 1));
            i = i + 1;
        }
        assert(self@.take(n as int) =~= self@);
        v
    }

    /// Adds `tag` in its place in the order; a tag already present is not
    /// added again.
    pub fn insert(&mut self, tag: String)
        ensures
            final(self)@.to_set() == old(self)@.to_set().insert(tag@),
            strictly_increasing(final(self)@),
    {
        proof {
            use_type_invariant(&*self);
        }
        let ghost old_view = self@;
        let n = self.tags.len();
        let mut i: usize = 0;
        while i < n
            invariant
                i <= n,
                n == self@.len(),
                self@ == old_view,
                strictly_increasing(old_view),
                forall|k: int| 0 <= k < i ==> lex_lt(#[trigger] old_view[k], tag@),
            ensures
                i <= n,
                self@ == old_view,
                forall|k: int| 0 <= k < i ==> lex_lt(#[trigger] old_view[k], tag@),
                i < n ==> lex_lt(tag@, old_view[i as int]),
            decreases n - i,
        {
            match compare_text(self.tags[i].as_str(), tag.as_str()) {
                TextOrder::Less => {
                    i = i + 1;
                },
                TextOrder::Equal => {
                    proof {
                        assert(old_view[i as int] == tag@);
                        assert(old_view.to_set().insert(tag@) =~= old_view.to_set());
                    }
                    proof {
                        use_type_invariant(&*self);
                    }
                    return ;
                },
                TextOrder::Greater => {
                    break ;
                },
            }
        }
        proof {
            assert forall|j: int| i <= j < n implies lex_lt(tag@, #[trigger] old_view[j]) by {
                if j > i {
                    lemma_lex_transitive(tag@, old_view[i as int], old_view[j]);
                }
            }
        }
        let mut v: Vec<String> = Vec::new();
        std::mem::swap(&mut v, &mut self.tags);
        v.insert(i, tag);
        let ghost new_view = string_views(v@);
        proof {
            assert(new_view =~= old_view.insert(i as int, tag@));
            assert forall|a: int, b: int| 0 <= a < b < new_view.len() implies lex_lt(
                #[trigger] new_view[a],
                #[trigger] new_view[b],
            ) by {
                if b < i {
                } else if b == i {
                } else if a < i {
                    assert(lex_lt(old_view[a], tag@));
                    assert(lex_lt(tag@, old_view[b - 1]));
                    lemma_lex_transitive(old_view[a], tag@, old_view[b - 1]);
                } else if a == i {
                    assert(lex_lt(tag@, old_view[b - 1]));
                } else {
                    assert(lex_lt(old_view[a - 1], old_view[b - 1]));
                }
            }
            assert forall|x: Seq<char>| new_view.contains(x) <==> old_view.contains(x) || x
                == tag@ by {
                if new_view.contains(x) {
                    let k = choose|k: int| 0 <= k < new_view.len() && new_view[k] == x;
                    if k < i {
                        assert(old_view[k] == x);
                    } else if k > i {
                        assert(old_view[k - 1] == x);
                    }
                }
                if old_view.contains(x) {
                    let k = choose|k: int| 0 <= k < old_view.len() && old_view[k] == x;
                    if k < i {
                        assert(new_view[k] == x);
                    } else {
                        assert(new_view[k + 1] == x);
                    }
                }
                if x == tag@ {
                    assert(new_view[i as int] == x);
                }
            }
            assert(new_view.to_set() =~= old_view.to_set().insert(tag@));
        }
        self.tags = v;
        proof {
            use_type_invariant(&*self);
        }
    }
}

} // verus!
