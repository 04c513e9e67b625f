//! Doubly linked free lists that live in the words of the heap.
//!
//! A link is two words: whether there is a successor, and its byte offset. A
//! node is a link to its successor and the byte offset of the link that leads
//! to it, which is the head of the list or the link of its predecessor.

use vstd::prelude::*;

verus! {

/// No heap has this many words, so byte offsets fit a word.
pub const MAX_WORDS: u64 = 0x03ff_ffff_ffff_ffff;

/// The link at word `at` leads to `to`.
pub open spec fn link_is(words: Seq<u64>, at: int, to: Option<int>) -> bool {
    match to {
        None => words[at] == 0,
        Some(node) => words[at] == 1 && words[at + 1] == 8 * node,
    }
}

pub open spec fn first(list: Seq<int>) -> Option<int> {
    if list.len() > 0 {
        Some(list[0])
    } else {
        None
    }
}

/// The node behind position `k`.
pub open spec fn after(list: Seq<int>, k: int) -> Option<int> {
    if k + 1 < list.len() {
        Some(list[k + 1])
    } else {
        None
    }
}

/// The link that leads to position `k`.
pub open spec fn before(head: int, list: Seq<int>, k: int) -> int {
    if k == 0 {
        head
    } else {
        list[k - 1]
    }
}

pub open spec fn node_ok(words: Seq<u64>, head: int, list: Seq<int>, k: int) -> bool {
    &&& link_is(words, list[k], after(list, k))
    &&& words[list[k] + 2] == 8 * before(head, list, k)
}

/// The words at `head` and at its nodes hold exactly `list`.
pub open spec fn list_ok(words: Seq<u64>, head: int, list: Seq<int>) -> bool {
    &&& link_is(words, head, first(list))
    &&& forall|k: int| 0 <= k < list.len() ==> #[trigger] node_ok(words, head, list, k)
}

/// Head and nodes lie inside the words and do not touch each other.
pub open spec fn apart(len: int, head: int, list: Seq<int>) -> bool {
    &&& 0 <= head
    &&& head + 2 <= len
    &&& forall|k: int|
        0 <= k < list.len() ==> head + 2 <= #[trigger] list[k] && list[k] + 4 <= len
    &&& forall|j: int, k: int|
        0 <= j < list.len() && 0 <= k < list.len() && j != k ==> #[trigger] list[j] + 4
            <= #[trigger] list[k] || list[k] + 4 <= list[j]
}

/// A list stays as it is where none of its words changes.
pub proof fn lemma_list_frame(before: Seq<u64>, after: Seq<u64>, head: int, list: Seq<int>)
    requires
        list_ok(before, head, list),
        before[head] == after[head],
        before[head + 1] == after[head + 1],
        forall|k: int|
            0 <= k < list.len() ==> before[#[trigger] list[k]] == after[list[k]] && before[list[k]
                + 1] == after[list[k] + 1] && before[list[k] + 2] == after[list[k] + 2],
    ensures
        list_ok(after, head, list),
{
    assert forall|k: int| 0 <= k < list.len() implies #[trigger] node_ok(after, head, list, k) by {
        assert(node_ok(before, head, list, k));
        assert(before[list[k]] == after[list[k]]);
    }
}

/// Reads the link at `at`.
pub fn read_link(words: &Vec<u64>, at: usize) -> (to: Option<usize>)
    requires
        at + 1 < words.len(),
    ensures
        match to {
            Some(node) => words@[at as int] != 0 && node == (words@[at + 1] / 8) as usize,
            None => words@[at as int] == 0,
        },
{
    if words[at] == 0 {
        None
    } else {
        Some((words[at + 1] / 8) as usize)
    }
}

/// Writes the link at `at`.
pub fn write_link(words: &mut Vec<u64>, at: usize, to: Option<usize>)
    requires
        at + 1 < old(words).len(),
        old(words).len() <= MAX_WORDS,
        to matches Some(node) ==> node < old(words)@.len(),
    ensures
        final(words)@.len() == old(words)@.len(),
        link_is(
            final(words)@,
            at as int,
            match to {
                Some(node) => Some(node as int),
                None => None,
            },
        ),
        forall|i: int|
            0 <= i < old(words)@.len() && i != at && i != at + 1 ==> #[trigger] final(words)@[i]
                == old(words)@[i],
{
    match to {
        Some(node) => {
            words[at] = 1;
            words[at + 1] = 8 * node as u64;
        },
        None => {
            words[at] = 0;
        },
    }
}

/// Puts `node` in front of the list at `head`.
pub fn insert_front(words: &mut Vec<u64>, head: usize, node: usize, Ghost(list): Ghost<Seq<int>>)
    requires
        old(words).len() <= MAX_WORDS,
        list_ok(old(words)@, head as int, list),
        apart(old(words)@.len() as int, head as int, seq![node as int] + list),
    ensures
        final(words)@.len() == old(words)@.len(),
        list_ok(final(words)@, head as int, seq![node as int] + list),
        forall|i: int|
            0 <= i < old(words)@.len() && i != head && i != head + 1 && !(node <= i < node + 3) && !(
            list.len() > 0 && i == list[0] + 2) ==> #[trigger] final(words)@[i] == old(words)@[i],
{
    let ghost w0 = words@;
    let ghost longer = seq![node as int] + list;
    proof {
        assert(longer[0] == node);
        assert forall|k: int| 0 <= k < list.len() implies longer[k + 1] == #[trigger] list[k] by {}
        if list.len() > 0 {
            assert(longer[1] == list[0]);
        }
    }
    let next: Option<usize> = read_link(words, head);
    write_link(words, node, next);
    words[node + 2] = 8 * head as u64;
    write_link(words, head, Some(node));
    match next {
        Some(next) => {
            words[next + 2] = 8 * node as u64;
        },
        None => {},
    }
    proof {
        let w1 = words@;
        assert forall|k: int| 0 <= k < longer.len() implies #[trigger] node_ok(
            w1,
            head as int,
            longer,
            k,
        ) by {
            if k > 0 {
                assert(node_ok(w0, head as int, list, k - 1));
                assert(longer[k] == list[k - 1]);
                assert(longer[k - 1] + 4 <= longer[k] || longer[k] + 4 <= longer[k - 1]);
                assert(longer[0] + 4 <= longer[k] || longer[k] + 4 <= longer[0]);
                if k > 1 {
                    assert(longer[1] + 4 <= longer[k] || longer[k] + 4 <= longer[1]);
                }
            }
        }
    }
}

/// Leading the link before a node past it takes it out of the list.
proof fn lemma_removed(w0: Seq<u64>, w1: Seq<u64>, head: int, list: Seq<int>, k: int)
    requires
        list_ok(w0, head, list),
        apart(w0.len() as int, head, list),
        0 <= k < list.len(),
        w1.len() == w0.len(),
        link_is(w1, before(head, list, k), after(list, k)),
        k + 1 < list.len() ==> w1[list[k + 1] + 2] == 8 * before(head, list, k),
        forall|i: int|
            0 <= i < w0.len() && i != before(head, list, k) && i != before(head, list, k) + 1 && !(k
                + 1 < list.len() && i == list[k + 1] + 2) ==> #[trigger] w1[i] == w0[i],
    ensures
        list_ok(w1, head, list.remove(k)),
{
    let shorter = list.remove(k);
    let p = before(head, list, k);
    assert forall|j: int| 0 <= j < shorter.len() implies #[trigger] node_ok(w1, head, shorter, j) by {
        let at = if j < k {
            j
        } else {
            j + 1
        };
        assert(shorter[j] == list[at]);
        let node = list[at];
        assert(node_ok(w0, head, list, at));
        // The node's own words are its neighbours' business only.
        if at != k + 1 {
            assert(w1[node + 2] == w0[node + 2]) by {
                if k > 0 && at != k - 1 {
                    assert(list[k - 1] + 4 <= list[at] || list[at] + 4 <= list[k - 1]);
                }
                if k + 1 < list.len() {
                    assert(list[k + 1] + 4 <= list[at] || list[at] + 4 <= list[k + 1]);
                }
            }
        }
        if at != k - 1 {
            assert(w1[node] == w0[node] && w1[node + 1] == w0[node + 1]) by {
                if k > 0 {
                    assert(list[k - 1] + 4 <= list[at] || list[at] + 4 <= list[k - 1]);
                }
                if k + 1 < list.len() && at != k + 1 {
                    assert(list[k + 1] + 4 <= list[at] || list[at] + 4 <= list[k + 1]);
                }
            }
        }
        assert(after(shorter, j) == if at == k - 1 {
            after(list, k)
        } else {
            after(list, at)
        });
        assert(before(head, shorter, j) == if at == k + 1 {
            p
        } else {
            before(head, list, at)
        });
    }
    if k > 0 {
        assert(shorter.len() > 0);
        assert(shorter[0] == list[0]);
        assert(w1[head] == w0[head] && w1[head + 1] == w0[head + 1]) by {
            assert(head + 2 <= list[k - 1]);
            if k + 1 < list.len() {
                assert(head + 2 <= list[k + 1]);
            }
        }
    } else {
        assert(first(shorter) == after(list, 0));
    }
}

/// Takes `node`, which stands at position `k`, out of the list at `head`.
pub fn remove_node(
    words: &mut Vec<u64>,
    node: usize,
    Ghost(head): Ghost<int>,
    Ghost(list): Ghost<Seq<int>>,
    Ghost(k): Ghost<int>,
)
    requires
        old(words).len() <= MAX_WORDS,
        list_ok(old(words)@, head, list),
        apart(old(words)@.len() as int, head, list),
        0 <= k < list.len(),
        list[k] == node,
    ensures
        final(words)@.len() == old(words)@.len(),
        list_ok(final(words)@, head, list.remove(k)),
        forall|i: int|
            0 <= i < old(words)@.len() && i != before(head, list, k) && i != before(head, list, k)
                + 1 && !(k + 1 < list.len() && i == list[k + 1] + 2) ==> #[trigger] final(words)@[i]
                == old(words)@[i],
{
    let ghost w0 = words@;
    proof {
        assert(node_ok(w0, head, list, k));
        if k > 0 {
            assert(list[k - 1] + 4 <= list[k] || list[k] + 4 <= list[k - 1]);
        }
        if k + 1 < list.len() {
            assert(list[k + 1] + 4 <= list[k] || list[k] + 4 <= list[k + 1]);
            if k > 0 {
                assert(list[k - 1] + 4 <= list[k + 1] || list[k + 1] + 4 <= list[k - 1]);
            }
        }
    }
    let next: Option<usize> = read_link(words, node);
    let prev_next: usize = (words[node + 2] / 8) as usize;
    write_link(words, prev_next, next);
    match next {
        Some(next) => {
            words[next + 2] = 8 * prev_next as u64;
        },
        None => {},
    }
    proof {
        lemma_removed(w0, words@, head, list, k);
    }
}

} // verus!
