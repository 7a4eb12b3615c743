//! The walk through a root file and the files it includes, as a state that
//! the caller advances: it hands in what the file system says (a file's
//! canonical path, its text, the files its `include` patterns match) and
//! gets back the next file to read. Each file is visited once, depth first
//! and in the order of its `include` directives, and a file that names no
//! parent context takes the one its context comment declares.
use vstd::prelude::*;
use crate::ignore::{contains_string, file_context, parse_context_comment, strings_view};

verus! {

/// A file still to visit: its path and the blocks it is included from
pub type PendingFile = (String, Vec<String>);

/// Model of a [`PendingFile`]
pub open spec fn pending_view(p: PendingFile) -> (Seq<char>, Seq<Seq<char>>) {
    (p.0@, strings_view(p.1@))
}

pub open spec fn pendings_view(v: Seq<PendingFile>) -> Seq<(Seq<char>, Seq<Seq<char>>)> {
    v.map_values(|p: PendingFile| pending_view(p))
}

/// Where the walk stands
pub struct IncludeWalk {
    /// The canonical paths of the files visited
    visited: Vec<String>,
    /// The files still to visit; the last one comes next
    pending: Vec<PendingFile>,
}

/// Model of an [`IncludeWalk`]
pub ghost struct IncludeWalkV {
    pub visited: Seq<Seq<char>>,
    pub pending: Seq<(Seq<char>, Seq<Seq<char>>)>,
}

impl View for IncludeWalk {
    type V = IncludeWalkV;

    closed spec fn view(&self) -> IncludeWalkV {
        IncludeWalkV { visited: strings_view(self.visited@), pending: pendings_view(self.pending@) }
    }
}

/// The context a file is linted in: the blocks it is included from, or,
/// for a file included from none, the context its comment declares
pub open spec fn effective_context(context: Seq<Seq<char>>, content: Seq<char>) -> Seq<Seq<char>> {
    if context.len() > 0 {
        context
    } else {
        match file_context(content) {
            Some(v) => v,
            None => seq![],
        }
    }
}

/// The context a file whose text is `content` is linted in, when it is
/// included from the blocks `context`
pub fn context_for(context: Vec<String>, content: &str) -> (r: Vec<String>)
    ensures
        strings_view(r@) == effective_context(strings_view(context@), content@),
{
    if context.len() > 0 {
        return context;
    }
    match parse_context_comment(content) {
        Some(v) => v,
        None => {
            let r: Vec<String> = Vec::new();
            assert(strings_view(r@) =~= Seq::<Seq<char>>::empty());
            r
        },
    }
}

impl IncludeWalk {
    /// The walk that starts at the file `root`, included from the blocks `context`
    pub fn new(root: String, context: Vec<String>) -> (w: IncludeWalk)
        ensures
            w@.visited.len() == 0,
            w@.pending == seq![(root@, strings_view(context@))],
    {
        let w = IncludeWalk { visited: Vec::new(), pending: vec![(root, context)] };
        assert(w@.visited =~= Seq::<Seq<char>>::empty());
        assert(pendings_view(w.pending@) =~= seq![(root@, strings_view(context@))]);
        w
    }

    /// The next file to visit, taken off the walk; `None` when the walk is done
    pub fn next_file(&mut self) -> (r: Option<PendingFile>)
        ensures
            final(self)@.visited == old(self)@.visited,
            old(self)@.pending.len() == 0 ==> r is None && final(self)@.pending == old(self)@.pending,
            old(self)@.pending.len() > 0 ==> (r matches Some(p) && pending_view(p)
                == old(self)@.pending.last() && final(self)@.pending == old(self)@.pending.drop_last()),
    {
        let r = self.pending.pop();
        proof {
            if old(self)@.pending.len() > 0 {
                assert(pendings_view(self.pending@) =~= old(self)@.pending.drop_last());
            }
        }
        r
    }

    /// Records the file whose canonical path is `canonical` as visited: true
    /// when it was not visited before, and so is to be linted
    pub fn first_visit(&mut self, canonical: &str) -> (r: bool)
        ensures
            r == !old(self)@.visited.contains(canonical@),
            final(self)@.pending == old(self)@.pending,
            final(self)@.visited == if r {
                old(self)@.visited.push(canonical@)
            } else {
                old(self)@.visited
            },
    {
        if contains_string(&self.visited, canonical) {
            return false;
        }
        let ghost before = self.visited@;
        self.visited.push(canonical.to_owned());
        assert(strings_view(self.visited@) =~= strings_view(before).push(canonical@));
        true
    }

    /// Schedules the files `children` that the file just visited includes,
    /// each with the blocks it is included from: they come next, in order,
    /// each with the files it includes before the next one
    pub fn push_children(&mut self, children: Vec<PendingFile>)
        ensures
            final(self)@.visited == old(self)@.visited,
            final(self)@.pending == old(self)@.pending + pendings_view(children@).reverse(),
    {
        let ghost start = self@.pending;
        let ghost cv = pendings_view(children@);
        let mut rest = children;
        while rest.len() > 0
            invariant
                self@.visited == old(self)@.visited,
                cv.len() >= rest@.len(),
                pendings_view(rest@) == cv.take(rest@.len() as int),
                self@.pending == start + cv.skip(rest@.len() as int).reverse(),
            decreases rest@.len(),
        {
            let ghost k = rest@.len();
            let c = rest.pop().unwrap();
            let ghost before = self.pending@;
            self.pending.push(c);
            proof {
                assert(pendings_view(rest@) =~= cv.take(k - 1));
                assert(pending_view(c) == cv[k - 1]) by {
                    assert(cv.take(k as int)[k - 1] == cv[k - 1]);
                }
                assert(pendings_view(self.pending@) =~= pendings_view(before).push(cv[k - 1]));
                assert(cv.skip(k - 1).reverse() =~= cv.skip(k as int).reverse().push(cv[k - 1]));
            }
        }
        assert(cv.skip(0) =~= cv);
    }
}

} // verus!
