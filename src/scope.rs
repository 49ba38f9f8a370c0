//! The chain of lexical scopes that the parser keeps while it resolves
//! variable references.
use vstd::prelude::*;

use crate::ast::{AstNode, Node};

verus! {

/// The model of one binding: a name, the `Variable` node bound to it, and the
/// depth of the block that declared it.
pub struct Bind {
    pub name: Seq<char>,
    pub node: Node,
    pub depth: nat,
}

/// The model of a scope chain: all live bindings, outermost first, and the
/// depth of the innermost open block (0 at top level).
pub struct Env {
    pub binds: Seq<Bind>,
    pub depth: nat,
}

/// The position of the binding of `name` that a lookup finds: the last one,
/// which belongs to the innermost scope that holds the name; -1 if none.
pub open spec fn find_last(bs: Seq<Bind>, name: Seq<char>) -> int
    decreases bs.len(),
{
    if bs.len() == 0 {
        -1
    } else if bs.last().name == name {
        bs.len() - 1
    } else {
        find_last(bs.drop_last(), name)
    }
}

pub proof fn lemma_find_last(bs: Seq<Bind>, name: Seq<char>)
    ensures
        -1 <= find_last(bs, name) < bs.len(),
        find_last(bs, name) >= 0 ==> bs[find_last(bs, name)].name == name,
    decreases bs.len(),
{
    if bs.len() > 0 && bs.last().name != name {
        lemma_find_last(bs.drop_last(), name);
    }
}

/// The node bound to `name`, searching from the innermost scope outward.
pub open spec fn lookup(env: Env, name: Seq<char>) -> Option<Node> {
    let k = find_last(env.binds, name);
    if k >= 0 { Some(env.binds[k].node) } else { None }
}

/// A declaration: binds `name` in the innermost scope, shadowing any earlier
/// binding of it.
pub open spec fn declare(env: Env, name: Seq<char>, node: Node) -> Env {
    Env { binds: env.binds.push(Bind { name, node, depth: env.depth }), ..env }
}

/// An assignment: rebinds `name` in the innermost scope that holds it.
pub open spec fn assign(env: Env, name: Seq<char>, node: Node) -> Env {
    let k = find_last(env.binds, name);
    if k >= 0 {
        Env { binds: env.binds.update(k, Bind { node, ..env.binds[k] }), ..env }
    } else {
        env
    }
}

/// The bindings but those of depth `d` or more at the end.
pub open spec fn drop_from_depth(bs: Seq<Bind>, d: nat) -> Seq<Bind>
    decreases bs.len(),
{
    if bs.len() > 0 && bs.last().depth >= d {
        drop_from_depth(bs.drop_last(), d)
    } else {
        bs
    }
}

/// Entering a block.
pub open spec fn enter(env: Env) -> Env {
    Env { depth: env.depth + 1, ..env }
}

/// Leaving a block: its bindings go.
pub open spec fn leave(env: Env) -> Env {
    if env.depth > 0 {
        Env { binds: drop_from_depth(env.binds, env.depth), depth: (env.depth - 1) as nat }
    } else {
        env
    }
}

/// One binding of a scope chain.
#[derive(Debug)]
pub struct Binding {
    name: String,
    node: AstNode,
    depth: usize,
}

/// A scope chain: live bindings, outermost first.
#[derive(Debug)]
pub struct Scope {
    bindings: Vec<Binding>,
    depth: usize,
}

pub closed spec fn binds_model(bs: Seq<Binding>) -> Seq<Bind> {
    bs.map_values(|b: Binding| Bind { name: b.name@, node: b.node@, depth: b.depth as nat })
}

impl View for Scope {
    type V = Env;

    closed spec fn view(&self) -> Env {
        Env { binds: binds_model(self.bindings@), depth: self.depth as nat }
    }
}

impl Scope {
    /// The scope chain of a program's top level, with no bindings.
    pub fn new() -> (r: Scope)
        ensures
            r@ == (Env { binds: Seq::empty(), depth: 0 }),
    {
        let r = Scope { bindings: Vec::new(), depth: 0 };
        assert(binds_model(r.bindings@) =~= Seq::<Bind>::empty());
        r
    }

    /// The depth of the innermost open block.
    pub fn depth(&self) -> (r: usize)
        ensures
            r == self@.depth,
    {
        self.depth
    }

    fn find(&self, name: &String) -> (r: Option<usize>)
        ensures
            match r {
                Some(k) => k < self.bindings@.len() && find_last(self@.binds, name@) == k,
                None => find_last(self@.binds, name@) == -1,
            },
    {
        let mut k = self.bindings.len();
        assert(self@.binds.subrange(0, k as int) =~= self@.binds);
        while k > 0
            invariant
                k <= self.bindings@.len(),
                find_last(self@.binds, name@) == find_last(self@.binds.subrange(0, k as int), name@),
            decreases k,
        {
            let ghost sub = self@.binds.subrange(0, k as int);
            assert(sub.last() == self@.binds[k - 1]);
            if self.bindings[k - 1].name == *name {
                return Some(k - 1);
            }
            assert(sub.drop_last() =~= self@.binds.subrange(0, k - 1));
            k -= 1;
        }
        None
    }

    /// A copy of the node bound to `name` in the innermost scope that holds it.
    pub fn get_var(&self, name: &String) -> (r: Option<AstNode>)
        ensures
            match r {
                Some(n) => lookup(self@, name@) == Some(n@),
                None => lookup(self@, name@) is None,
            },
    {
        match self.find(name) {
            Some(k) => Some(self.bindings[k].node.copy()),
            None => None,
        }
    }

    /// Declares `name` in the innermost scope, bound to `node`.
    pub fn add_var(&mut self, name: String, node: AstNode)
        ensures
            final(self)@ == declare(old(self)@, name@, node@),
    {
        let ghost before = self.bindings@;
        self.bindings.push(Binding { name, node, depth: self.depth });
        assert(binds_model(self.bindings@) =~= binds_model(before).push(
            Bind { name: name@, node: node@, depth: self.depth as nat },
        ));
    }

    /// Rebinds `name` to `node` in the innermost scope that holds it; false,
    /// and nothing changed, when no scope holds it.
    pub fn set_var(&mut self, name: String, node: AstNode) -> (r: bool)
        ensures
            r == (lookup(old(self)@, name@) is Some),
            final(self)@ == assign(old(self)@, name@, node@),
    {
        match self.find(&name) {
            Some(k) => {
                let d = self.bindings[k].depth;
                proof {
                    lemma_find_last(self@.binds, name@);
                }
                let ghost before = self.bindings@;
                let ghost nm = node@;
                self.bindings.set(k, Binding { name, node, depth: d });
                assert(binds_model(self.bindings@) =~= binds_model(before).update(
                    k as int,
                    Bind { node: nm, ..binds_model(before)[k as int] },
                ));
                true
            },
            None => false,
        }
    }

    /// Opens a block.
    pub fn forward(&mut self)
        requires
            old(self)@.depth < usize::MAX,
        ensures
            final(self)@ == enter(old(self)@),
    {
        self.depth = self.depth + 1;
    }

    /// Closes the innermost block, dropping its bindings.
    pub fn expire(&mut self)
        ensures
            final(self)@ == leave(old(self)@),
    {
        if self.depth == 0 {
            return;
        }
        let ghost d = self.depth as nat;
        let ghost all = binds_model(self.bindings@);
        while self.bindings.len() > 0 && self.bindings[self.bindings.len() - 1].depth >= self.depth
            invariant
                self.depth as nat == d,
                d > 0,
                drop_from_depth(all, d) == drop_from_depth(binds_model(self.bindings@), d),
            decreases self.bindings@.len(),
        {
            let ghost before = self.bindings@;
            self.bindings.pop();
            assert(binds_model(self.bindings@) =~= binds_model(before).drop_last());
        }
        self.depth = self.depth - 1;
    }
}

} // verus!
