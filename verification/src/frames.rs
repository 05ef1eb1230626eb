//! The search for the window-manager frame around each client window.
//!
//! The frame is the ancestor that is a direct child of the root window. All clients are walked up
//! the tree together, one level per round, so that a round's queries can be sent at once.
use vstd::prelude::*;

verus! {

/// The walk gives up after so many levels, against deep hierarchies and cycles.
pub const MAX_ROUNDS: u32 = 32;

/// The walk of one client.
#[derive(Debug, Clone, Copy, PartialEq, Eq)]
pub struct Walk {
    /// The frame, once it is found; the client itself until then.
    pub frame: u32,
    /// The window whose parent is asked for next.
    pub at: u32,
    pub done: bool,
}

/// The walks of all clients.
#[derive(Debug)]
pub struct FrameSearch {
    pub root: u32,
    pub walks: Vec<Walk>,
    /// Rounds that have been made.
    pub rounds: u32,
}

/// One level up. `parent` is the parent of the window that was asked for, if there was an answer:
/// below the root the window is the frame; a window that is its own parent, or no answer, ends the
/// walk with the client itself.
pub open spec fn step_up(w: Walk, parent: Option<u32>, root: u32) -> Walk {
    if w.done {
        w
    } else {
        match parent {
            Some(p) => if p == root || p == 0 {
                Walk { frame: w.at, at: w.at, done: true }
            } else if p != w.at {
                Walk { frame: w.frame, at: p, done: false }
            } else {
                Walk { frame: w.frame, at: w.at, done: true }
            },
            None => Walk { frame: w.frame, at: w.at, done: true },
        }
    }
}

pub open spec fn start(client: u32) -> Walk {
    Walk { frame: client, at: client, done: false }
}

impl FrameSearch {
    pub open spec fn active(self) -> bool {
        exists|i: int| 0 <= i < self.walks.len() && !(#[trigger] self.walks[i]).done
    }

    /// A search that starts at the clients themselves.
    pub fn new(clients: &Vec<u32>, root: u32) -> (r: FrameSearch)
        ensures
            r.root == root,
            r.rounds == 0,
            r.walks.len() == clients.len(),
            forall|i: int| 0 <= i < clients.len() ==> #[trigger] r.walks[i] == start(clients[i]),
    {
        let mut walks: Vec<Walk> = Vec::new();
        let n: usize = clients.len();
        let mut i: usize = 0;
        while i < n
            invariant
                i <= n,
                n == clients.len(),
                walks.len() == i,
                forall|j: int| 0 <= j < i ==> #[trigger] walks[j] == start(clients[j]),
            decreases n - i,
        {
            walks.push(Walk { frame: clients[i], at: clients[i], done: false });
            i = i + 1;
        }
        FrameSearch { root, walks, rounds: 0 }
    }

    /// The windows whose parents are wanted next; none for a client whose walk has ended.
    pub fn queries(&self) -> (r: Vec<Option<u32>>)
        ensures
            r.len() == self.walks.len(),
            forall|i: int|
                0 <= i < r.len() ==> #[trigger] r[i] == if self.walks[i].done {
                    None
                } else {
                    Some(self.walks[i].at)
                },
    {
        let mut r: Vec<Option<u32>> = Vec::new();
        let n: usize = self.walks.len();
        let mut i: usize = 0;
        while i < n
            invariant
                i <= n,
                n == self.walks.len(),
                r.len() == i,
                forall|j: int|
                    0 <= j < i ==> #[trigger] r[j] == if self.walks[j].done {
                        None
                    } else {
                        Some(self.walks[j].at)
                    },
            decreases n - i,
        {
            let w = self.walks[i];
            r.push(
                if w.done {
                    None
                } else {
                    Some(w.at)
                },
            );
            i = i + 1;
        }
        r
    }

    /// Takes the answers of a round. Returns whether another round is needed.
    pub fn advance(&mut self, parents: &Vec<Option<u32>>) -> (more: bool)
        requires
            parents.len() == old(self).walks.len(),
            old(self).rounds < MAX_ROUNDS,
        ensures
            final(self).root == old(self).root,
            final(self).rounds == old(self).rounds + 1,
            final(self).walks.len() == old(self).walks.len(),
            forall|i: int|
                0 <= i < parents.len() ==> #[trigger] final(self).walks[i] == step_up(
                    old(self).walks[i],
                    parents[i],
                    old(self).root,
                ),
            more == (final(self).active() && final(self).rounds < MAX_ROUNDS),
    {
        let n: usize = self.walks.len();
        let mut next: Vec<Walk> = Vec::new();
        let mut active: bool = false;
        let mut i: usize = 0;
        while i < n
            invariant
                i <= n,
                n == self.walks.len(),
                n == parents.len(),
                next.len() == i,
                forall|j: int|
                    0 <= j < i ==> #[trigger] next[j] == step_up(
                        self.walks[j],
                        parents[j],
                        self.root,
                    ),
                active == exists|j: int| 0 <= j < i && !(#[trigger] next[j]).done,
            decreases n - i,
        {
            let w = self.walks[i];
            let stepped: Walk = if w.done {
                w
            } else {
                match parents[i] {
                    Some(p) => if p == self.root || p == 0 {
                        Walk { frame: w.at, at: w.at, done: true }
                    } else if p != w.at {
                        Walk { frame: w.frame, at: p, done: false }
                    } else {
                        Walk { frame: w.frame, at: w.at, done: true }
                    },
                    None => Walk { frame: w.frame, at: w.at, done: true },
                }
            };
            let ghost before = next@;
            next.push(stepped);
            proof {
                assert(next[i as int] == stepped);
                assert forall|j: int| 0 <= j < i implies #[trigger] next[j] == before[j] by {}
                if active {
                    let j = choose|j: int| 0 <= j < i && !(#[trigger] before[j]).done;
                    assert(!next[j].done);
                }
            }
            if !stepped.done {
                active = true;
            }
            i = i + 1;
        }
        self.walks = next;
        self.rounds = self.rounds + 1;
        active && self.rounds < MAX_ROUNDS
    }

    /// The frames found, one per client; a client without one stands for itself.
    pub fn frames(&self) -> (r: Vec<u32>)
        ensures
            r.len() == self.walks.len(),
            forall|i: int| 0 <= i < r.len() ==> #[trigger] r[i] == self.walks[i].frame,
    {
        let mut r: Vec<u32> = Vec::new();
        let n: usize = self.walks.len();
        let mut i: usize = 0;
        while i < n
            invariant
                i <= n,
                n == self.walks.len(),
                r.len() == i,
                forall|j: int| 0 <= j < i ==> #[trigger] r[j] == self.walks[j].frame,
            decreases n - i,
        {
            r.push(self.walks[i].frame);
            i = i + 1;
        }
        r
    }
}

/// A walk after `rounds` rounds, in a tree that does not change meanwhile.
pub open spec fn walked(
    w: Walk,
    tree: spec_fn(u32) -> Option<u32>,
    root: u32,
    rounds: nat,
) -> Walk
    decreases rounds,
{
    if rounds == 0 {
        w
    } else {
        walked(step_up(w, tree(w.at), root), tree, root, (rounds - 1) as nat)
    }
}

/// The `n`-th ancestor of a window, where the tree has one.
pub open spec fn ancestor(tree: spec_fn(u32) -> Option<u32>, w: u32, n: nat) -> Option<u32>
    decreases n,
{
    if n == 0 {
        Some(w)
    } else {
        match ancestor(tree, w, (n - 1) as nat) {
            Some(a) => tree(a),
            None => None,
        }
    }
}

/// The search finds the frame: the ancestor that is a child of the root, when it is fewer than
/// `rounds` levels up and every window on the way has a parent other than itself.
pub proof fn law_search_finds_the_frame(
    tree: spec_fn(u32) -> Option<u32>,
    root: u32,
    client: u32,
    depth: nat,
    rounds: nat,
)
    requires
        depth < rounds,
        ancestor(tree, client, depth) is Some,
        tree(ancestor(tree, client, depth)->0) == Some(root),
        forall|k: nat|
            #![trigger ancestor(tree, client, k)]
            k < depth ==> {
                let a = ancestor(tree, client, k);
                let p = ancestor(tree, client, k + 1);
                a is Some && p is Some && p->0 != root && p->0 != 0 && p->0 != a->0
            },
    ensures
        walked(start(client), tree, root, rounds).frame == ancestor(tree, client, depth)->0,
{
    lemma_walk_goes_up(tree, root, client, depth, depth, rounds);
}

/// After `k` rounds the walk is at the `k`-th ancestor.
proof fn lemma_walk_goes_up(
    tree: spec_fn(u32) -> Option<u32>,
    root: u32,
    client: u32,
    depth: nat,
    k: nat,
    rounds: nat,
)
    requires
        depth < rounds,
        k <= depth,
        ancestor(tree, client, depth) is Some,
        tree(ancestor(tree, client, depth)->0) == Some(root),
        forall|j: nat|
            #![trigger ancestor(tree, client, j)]
            j < depth ==> {
                let a = ancestor(tree, client, j);
                let p = ancestor(tree, client, j + 1);
                a is Some && p is Some && p->0 != root && p->0 != 0 && p->0 != a->0
            },
    ensures
        walked(
            Walk {
                frame: client,
                at: ancestor(tree, client, (depth - k) as nat)->0,
                done: false,
            },
            tree,
            root,
            (rounds - (depth - k)) as nat,
        ).frame == ancestor(tree, client, depth)->0,
        k == depth ==> walked(start(client), tree, root, rounds).frame == ancestor(
            tree,
            client,
            depth,
        )->0,
    decreases k,
{
    let i = (depth - k) as nat;
    let w = Walk { frame: client, at: ancestor(tree, client, i)->0, done: false };
    let left = (rounds - i) as nat;
    if k == 0 {
        let found = Walk { frame: w.at, at: w.at, done: true };
        assert(step_up(w, tree(w.at), root) == found);
        lemma_done_stays(found, tree, root, (left - 1) as nat);
    } else {
        lemma_walk_goes_up(tree, root, client, depth, (k - 1) as nat, rounds);
        let a = ancestor(tree, client, i);
        let p = ancestor(tree, client, i + 1);
        assert(p == tree(a->0));
        assert(step_up(w, tree(w.at), root) == (Walk { frame: client, at: p->0, done: false }));
    }
}

/// A walk that has ended stays as it is.
proof fn lemma_done_stays(w: Walk, tree: spec_fn(u32) -> Option<u32>, root: u32, rounds: nat)
    requires
        w.done,
    ensures
        walked(w, tree, root, rounds) == w,
    decreases rounds,
{
    if rounds > 0 {
        lemma_done_stays(w, tree, root, (rounds - 1) as nat);
    }
}

/// A frame that is fewer than 32 levels up is found.
pub proof fn law_frames_up_to_32_levels_are_found(
    tree: spec_fn(u32) -> Option<u32>,
    root: u32,
    client: u32,
    depth: nat,
)
    requires
        depth < 32,
        ancestor(tree, client, depth) is Some,
        tree(ancestor(tree, client, depth)->0) == Some(root),
        forall|k: nat|
            #![trigger ancestor(tree, client, k)]
            k < depth ==> {
                let a = ancestor(tree, client, k);
                let p = ancestor(tree, client, k + 1);
                a is Some && p is Some && p->0 != root && p->0 != 0 && p->0 != a->0
            },
    ensures
        walked(start(client), tree, root, MAX_ROUNDS as nat).frame == ancestor(tree, client, depth)->0,
{
    law_search_finds_the_frame(tree, root, client, depth, MAX_ROUNDS as nat);
}

/// Whatever the tree is like, the search gives the client itself or a window right below the root.
pub proof fn law_frames_are_top_level(
    tree: spec_fn(u32) -> Option<u32>,
    root: u32,
    client: u32,
    rounds: nat,
)
    ensures
        ({
            let f = walked(start(client), tree, root, rounds).frame;
            f == client || tree(f) == Some(root) || tree(f) == Some(0u32)
        }),
{
    lemma_walk_is_top_level(start(client), tree, root, client, rounds);
}

proof fn lemma_walk_is_top_level(
    w: Walk,
    tree: spec_fn(u32) -> Option<u32>,
    root: u32,
    client: u32,
    rounds: nat,
)
    requires
        w.frame == client || (w.done && (tree(w.frame) == Some(root) || tree(w.frame) == Some(0u32))),
    ensures
        ({
            let f = walked(w, tree, root, rounds).frame;
            f == client || tree(f) == Some(root) || tree(f) == Some(0u32)
        }),
    decreases rounds,
{
    if rounds > 0 {
        lemma_walk_is_top_level(
            step_up(w, tree(w.at), root),
            tree,
            root,
            client,
            (rounds - 1) as nat,
        );
    }
}

} // verus!
