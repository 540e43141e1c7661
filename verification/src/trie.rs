use vstd::prelude::*;
use vstd::string::StrSliceExecFns;

verus! {

/// A prefix tree over the characters of words. Each node remembers the
/// prefix that leads to it, its children keyed by their next character, and
/// whether some inserted word ends here.
pub struct Trie {
    prefix: String,
    children: Vec<(char, Trie)>,
    is_terminal: bool,
}

/// The children of a node, as the association list the node stores.
pub closed spec fn children_of(t: Trie) -> Seq<(char, Trie)> {
    t.children@
}

/// Whether some inserted word ends at this node.
pub closed spec fn terminal_of(t: Trie) -> bool {
    t.is_terminal
}

/// The characters that lead to this node.
pub closed spec fn prefix_of(t: Trie) -> Seq<char> {
    t.prefix@
}

/// The subtree filed under `c`: the first entry with that key.
pub open spec fn child_with(cs: Seq<(char, Trie)>, c: char) -> Option<Trie>
    decreases cs.len(),
{
    if cs.len() == 0 {
        None
    } else if cs[0].0 == c {
        Some(cs[0].1)
    } else {
        child_with(cs.drop_first(), c)
    }
}

/// The node reached from `t` by walking the characters of `w`.
pub open spec fn walk(t: Trie, w: Seq<char>) -> Option<Trie>
    decreases w.len(),
{
    if w.len() == 0 {
        Some(t)
    } else {
        match child_with(children_of(t), w[0]) {
            Some(ch) => walk(ch, w.drop_first()),
            None => None,
        }
    }
}

/// The word `w` has been inserted into `t`: walking it ends at a terminal
/// node.
pub open spec fn contains_word(t: Trie, w: Seq<char>) -> bool {
    match walk(t, w) {
        Some(n) => terminal_of(n),
        None => false,
    }
}

/// Replacing the first entry keyed `c` changes only the lookup of `c`.
proof fn lemma_child_with_replace(cs: Seq<(char, Trie)>, cs2: Seq<(char, Trie)>, p: int, c: char)
    requires
        cs2.len() == cs.len(),
        0 <= p < cs.len(),
        cs[p].0 == c,
        cs2[p].0 == c,
        forall|j: int| 0 <= j < p ==> cs[j].0 != c,
        forall|j: int| 0 <= j < cs.len() && j != p ==> cs2[j] == cs[j],
    ensures
        child_with(cs2, c) == Some(cs2[p].1),
        forall|c2: char| c2 != c ==> child_with(cs2, c2) == child_with(cs, c2),
    decreases p,
{
    if p == 0 {
        assert(child_with(cs2, c) == Some(cs2[0].1));
        assert forall|c2: char| c2 != c implies child_with(cs2, c2) == child_with(cs, c2) by {
            lemma_child_with_tail_eq(cs.drop_first(), cs2.drop_first(), c2);
        }
    } else {
        assert forall|j: int| 0 <= j < cs.drop_first().len() && j != p - 1
            implies cs2.drop_first()[j] == cs.drop_first()[j] by {
            assert(cs2[j + 1] == cs[j + 1]);
        }
        lemma_child_with_replace(cs.drop_first(), cs2.drop_first(), p - 1, c);
        assert(cs2.drop_first()[p - 1].1 == cs2[p].1);
        assert(cs2[0] == cs[0]);
        assert(cs[0].0 != c);
        assert(child_with(cs2, c) == child_with(cs2.drop_first(), c));
        assert forall|c2: char| c2 != c implies child_with(cs2, c2) == child_with(cs, c2) by {
            if cs[0].0 != c2 {
                assert(child_with(cs2, c2) == child_with(cs2.drop_first(), c2));
                assert(child_with(cs, c2) == child_with(cs.drop_first(), c2));
            }
        }
    }
}

/// Two association lists equal entry by entry look keys up alike.
proof fn lemma_child_with_tail_eq(cs: Seq<(char, Trie)>, cs2: Seq<(char, Trie)>, c: char)
    requires
        cs2.len() == cs.len(),
        forall|j: int| 0 <= j < cs.len() ==> cs2[j] == cs[j],
    ensures
        child_with(cs2, c) == child_with(cs, c),
    decreases cs.len(),
{
    if cs.len() > 0 {
        assert(cs2[0] == cs[0]);
        lemma_child_with_tail_eq(cs.drop_first(), cs2.drop_first(), c);
    }
}

/// Appending an entry with a fresh key adds exactly that one lookup.
proof fn lemma_child_with_push(cs: Seq<(char, Trie)>, e: (char, Trie), c: char)
    requires
        child_with(cs, e.0) is None,
    ensures
        child_with(cs.push(e), e.0) == Some(e.1),
        c != e.0 ==> child_with(cs.push(e), c) == child_with(cs, c),
    decreases cs.len(),
{
    if cs.len() == 0 {
        assert(cs.push(e)[0] == e);
        assert(cs.push(e).drop_first() =~= Seq::<(char, Trie)>::empty());
        if c != e.0 {
            assert(child_with(cs.push(e), c) == child_with(cs.push(e).drop_first(), c));
            assert(child_with(cs.push(e), c) is None);
            assert(child_with(cs, c) is None);
        }
    } else {
        assert(cs.push(e)[0] == cs[0]);
        assert(cs[0].0 != e.0);
        assert(cs.push(e).drop_first() =~= cs.drop_first().push(e));
        assert(child_with(cs.drop_first(), e.0) is None);
        lemma_child_with_push(cs.drop_first(), e, c);
        assert(child_with(cs.push(e), e.0) == child_with(cs.drop_first().push(e), e.0));
        if c != e.0 && cs[0].0 != c {
            assert(child_with(cs.push(e), c) == child_with(cs.drop_first().push(e), c));
            assert(child_with(cs, c) == child_with(cs.drop_first(), c));
        }
    }
}

/// Two non-empty words with the same head and the same tail are the same
/// word.
proof fn lemma_cons_eq(a: Seq<char>, b: Seq<char>)
    requires
        a.len() > 0,
        b.len() > 0,
        a[0] == b[0],
        a.drop_first() =~= b.drop_first(),
    ensures
        a =~= b,
{
    assert(a.drop_first().len() == b.drop_first().len());
    assert(a.len() == b.len());
    assert forall|k: int| 0 <= k < a.len() implies a[k] == b[k] by {
        if k > 0 {
            assert(a[k] == a.drop_first()[k - 1]);
            assert(b[k] == b.drop_first()[k - 1]);
        }
    }
}

impl Trie {
    /// The empty trie: one terminal root with no children.
    pub fn new() -> (r: Trie)
        ensures
            terminal_of(r),
            children_of(r).len() == 0,
            prefix_of(r) =~= Seq::<char>::empty(),
    {
        Trie { prefix: String::new(), children: Vec::new(), is_terminal: true }
    }

    /// Whether some inserted word ends at this node.
    pub fn is_terminal(&self) -> (r: bool)
        ensures
            r == terminal_of(*self),
    {
        self.is_terminal
    }

    /// The characters that lead to this node.
    pub fn prefix(&self) -> (r: &str)
        ensures
            r@ == prefix_of(*self),
    {
        self.prefix.as_str()
    }

    /// The position of the first child keyed `c`, if any.
    fn find_child(cs: &Vec<(char, Trie)>, c: char) -> (r: Option<usize>)
        ensures
            match r {
                Some(p) => {
                    &&& p < cs@.len()
                    &&& cs@[p as int].0 == c
                    &&& forall|j: int| 0 <= j < p ==> cs@[j].0 != c
                    &&& child_with(cs@, c) == Some(cs@[p as int].1)
                },
                None => child_with(cs@, c) is None,
            },
    {
        let n = cs.len();
        let mut i: usize = 0;
        proof {
            assert(cs@.subrange(0, cs@.len() as int) =~= cs@);
        }
        while i < n
            invariant
                n == cs@.len(),
                i <= n,
                forall|j: int| 0 <= j < i ==> cs@[j].0 != c,
                child_with(cs@, c) == child_with(cs@.subrange(i as int, cs@.len() as int), c),
            decreases n - i,
        {
            let ghost sub = cs@.subrange(i as int, cs@.len() as int);
            proof {
                assert(sub[0] == cs@[i as int]);
                assert(sub.drop_first() =~= cs@.subrange(i + 1, cs@.len() as int));
            }
            if cs[i].0 == c {
                return Some(i);
            }
            i = i + 1;
        }
        None
    }

    /// Walks the characters of `word` down from this node, handing back the
    /// node it ends at, or nothing when the path leaves the tree.
    pub fn find<'a>(&'a self, word: &str) -> (r: Option<&'a Trie>)
        ensures
            match r {
                Some(n) => walk(*self, word@) == Some(*n),
                None => walk(*self, word@) is None,
            },
    {
        proof {
            assert(word@.subrange(0, word@.len() as int) =~= word@);
        }
        self.find_from(word, 0)
    }

    /// Walks the suffix of `word` that starts at character `i`.
    fn find_from<'a>(&'a self, word: &str, i: usize) -> (r: Option<&'a Trie>)
        requires
            i <= word@.len(),
        ensures
            match r {
                Some(n) => walk(*self, word@.subrange(i as int, word@.len() as int)) == Some(*n),
                None => walk(*self, word@.subrange(i as int, word@.len() as int)) is None,
            },
        decreases word@.len() - i,
    {
        let n = word.unicode_len();
        let ghost sub = word@.subrange(i as int, word@.len() as int);
        if i == n {
            proof {
                assert(sub.len() == 0);
            }
            return Some(self);
        }
        let c = word.get_char(i);
        proof {
            assert(sub[0] == word@[i as int]);
            assert(sub.drop_first() =~= word@.subrange(i + 1, word@.len() as int));
        }
        match Self::find_child(&self.children, c) {
            Some(p) => self.children[p].1.find_from(word, i + 1),
            None => None,
        }
    }

    /// Inserts a word: afterwards the trie contains exactly the words it
    /// contained before, and this one. Inserting the empty word changes
    /// nothing, as the scan of its characters never starts.
    pub fn insert(&mut self, word: &str)
        ensures
            word@.len() == 0 ==> *final(self) == *old(self),
            forall|w2: Seq<char>|
                contains_word(*final(self), w2) == (contains_word(*old(self), w2) || (word@.len()
                    > 0 && w2 =~= word@)),
    {
        if word.unicode_len() == 0 {
            proof {
                assert forall|w2: Seq<char>|
                    contains_word(*self, w2) == (contains_word(*self, w2) || (word@.len() > 0 && w2
                        =~= word@)) by {}
            }
            return ;
        }
        self.insert_from(word, 0);
        proof {
            assert(word@.subrange(0, word@.len() as int) =~= word@);
        }
    }

    /// Inserts the suffix of `word` that starts at character `i` below this
    /// node.
    fn insert_from(&mut self, word: &str, i: usize)
        requires
            i <= word@.len(),
        ensures
            prefix_of(*final(self)) == prefix_of(*old(self)),
            forall|w2: Seq<char>|
                contains_word(*final(self), w2) == (contains_word(*old(self), w2) || w2
                    =~= word@.subrange(i as int, word@.len() as int)),
        decreases word@.len() - i,
    {
        let n = word.unicode_len();
        let ghost tail = word@.subrange(i as int, word@.len() as int);
        if i == n {
            self.is_terminal = true;
            proof {
                assert(tail.len() == 0);
                assert forall|w2: Seq<char>|
                    contains_word(*self, w2) == (contains_word(*old(self), w2) || w2 =~= tail) by {
                    if w2.len() == 0 {
                        assert(walk(*self, w2) == Some(*self));
                        assert(w2 =~= tail);
                    } else {
                        assert(children_of(*self) == children_of(*old(self)));
                        assert(walk(*self, w2) == walk(*old(self), w2));
                        assert(!(w2 =~= tail));
                    }
                }
            }
            return ;
        }
        let c = word.get_char(i);
        proof {
            assert(tail[0] == word@[i as int]);
            assert(tail.drop_first() =~= word@.subrange(i + 1, word@.len() as int));
        }
        match Self::find_child(&self.children, c) {
            Some(p) => {
                let ghost cs_before = self.children@;
                let mut entry = self.children.remove(p);
                let ghost child_before = entry.1;
                entry.1.insert_from(word, i + 1);
                let ghost child_after = entry.1;
                self.children.insert(p, entry);
                proof {
                    assert(self.children@ =~= cs_before.update(p as int, (c, child_after)));
                    lemma_child_with_replace(
                        cs_before,
                        self.children@,
                        p as int,
                        c,
                    );
                    let rest = word@.subrange(i + 1, word@.len() as int);
                    assert forall|w2: Seq<char>|
                        contains_word(*self, w2) == (contains_word(*old(self), w2) || w2
                            =~= tail) by {
                        if w2.len() == 0 {
                            assert(!(w2 =~= tail));
                        } else if w2[0] == c {
                            assert(walk(*self, w2) == walk(child_after, w2.drop_first()));
                            assert(walk(*old(self), w2) == walk(child_before, w2.drop_first()));
                            assert(contains_word(child_after, w2.drop_first()) == (contains_word(
                                child_before,
                                w2.drop_first(),
                            ) || w2.drop_first() =~= rest));
                            if w2.drop_first() =~= rest {
                                lemma_cons_eq(w2, tail);
                            }
                            if w2 =~= tail {
                                assert(w2.drop_first() =~= rest);
                            }
                        } else {
                            assert(child_with(children_of(*self), w2[0]) == child_with(
                                cs_before,
                                w2[0],
                            ));
                            assert(walk(*self, w2) == walk(*old(self), w2));
                            assert(!(w2 =~= tail));
                        }
                    }
                }
            },
            None => {
                let ghost cs_before = self.children@;
                let sub = word.substring_char(0, i + 1);
                let mut node = Trie {
                    prefix: sub.to_owned(),
                    children: Vec::new(),
                    is_terminal: false,
                };
                let ghost fresh = node;
                node.insert_from(word, i + 1);
                let ghost node_after = node;
                self.children.push((c, node));
                proof {
                    lemma_child_with_push(cs_before, (c, node_after), c);
                    let rest = word@.subrange(i + 1, word@.len() as int);
                    assert forall|w2: Seq<char>|
                        contains_word(*self, w2) == (contains_word(*old(self), w2) || w2
                            =~= tail) by {
                        if w2.len() == 0 {
                            assert(!(w2 =~= tail));
                        } else if w2[0] == c {
                            lemma_child_with_push(cs_before, (c, node_after), w2[0]);
                            assert(walk(*self, w2) == walk(node_after, w2.drop_first()));
                            assert(walk(*old(self), w2) is None);
                            // the fresh node held nothing before its own insertion
                            assert(contains_word(node_after, w2.drop_first()) == (contains_word(
                                fresh,
                                w2.drop_first(),
                            ) || w2.drop_first() =~= rest));
                            assert(!contains_word(fresh, w2.drop_first())) by {
                                assert(children_of(fresh).len() == 0);
                                if w2.drop_first().len() > 0 {
                                    assert(child_with(children_of(fresh), w2.drop_first()[0]) is None);
                                }
                            }
                            if w2.drop_first() =~= rest {
                                lemma_cons_eq(w2, tail);
                            }
                            if w2 =~= tail {
                                assert(w2.drop_first() =~= rest);
                            }
                        } else {
                            lemma_child_with_push(cs_before, (c, node_after), w2[0]);
                            assert(walk(*self, w2) == walk(*old(self), w2));
                            assert(!(w2 =~= tail));
                        }
                    }
                }
            },
        }
    }
}

} // verus!
