//! How a commit is to be named after the references that lead to it.
use vstd::prelude::*;
use crate::entry::ContentId;
use crate::path::{
    bytes_equal, compare_paths, lemma_path_lt_transitive, lemma_path_order_equal,
    lemma_path_order_flip, path_lt, path_order, PathOrder,
};

verus! {

/// A selector to choose what kind of references should contribute to names.
#[derive(Default, Debug, Clone, Copy, PartialOrd, PartialEq, Ord, Eq, Structural, Hash)]
pub enum SelectRef {
    /// Only use annotated tags for names.
    #[default]
    AnnotatedTags,
    /// Use all tags for names, annotated or plain reference.
    AllTags,
    /// Use all references, including local branch names.
    AllRefs,
}

/// The number of candidates that are considered if nothing else is asked
/// for.
pub const DEFAULT_MAX_CANDIDATES: usize = 10;

/// The settings of one naming of a commit.
#[derive(Debug, Clone)]
pub struct Platform {
    /// The commit to name.
    pub id: ContentId,
    /// The references that contribute names.
    pub select: SelectRef,
    /// Whether only the first parent of a merge is followed.
    pub first_parent: bool,
    /// Whether the id itself is the name where no reference leads to it.
    pub id_as_fallback: bool,
    /// How many candidates are considered.
    pub max_candidates: usize,
}

impl Platform {
    /// The settings for naming `id` after annotated tags, along all
    /// parents, without a fallback and among ten candidates.
    pub fn new(id: ContentId) -> (r: Platform)
        ensures
            r.id == id,
            r.select == SelectRef::AnnotatedTags,
            !r.first_parent,
            !r.id_as_fallback,
            r.max_candidates == DEFAULT_MAX_CANDIDATES,
    {
        Platform {
            id,
            select: SelectRef::AnnotatedTags,
            first_parent: false,
            id_as_fallback: false,
            max_candidates: DEFAULT_MAX_CANDIDATES,
        }
    }

    /// Configure which names to `select` from which describe can choose.
    pub fn names(self, select: SelectRef) -> (r: Platform)
        ensures
            r.select == select,
            r.id == self.id,
            r.first_parent == self.first_parent,
            r.id_as_fallback == self.id_as_fallback,
            r.max_candidates == self.max_candidates,
    {
        Platform {
            id: self.id,
            select,
            first_parent: self.first_parent,
            id_as_fallback: self.id_as_fallback,
            max_candidates: self.max_candidates,
        }
    }

    /// If true, shorten the graph traversal time by just traversing the
    /// first parent of merge commits.
    pub fn traverse_first_parent(self, first_parent: bool) -> (r: Platform)
        ensures
            r.first_parent == first_parent,
            r.id == self.id,
            r.select == self.select,
            r.id_as_fallback == self.id_as_fallback,
            r.max_candidates == self.max_candidates,
    {
        Platform {
            id: self.id,
            select: self.select,
            first_parent,
            id_as_fallback: self.id_as_fallback,
            max_candidates: self.max_candidates,
        }
    }

    /// Only consider the given number of candidates, instead of the default
    /// of 10.
    pub fn max_candidates(self, candidates: usize) -> (r: Platform)
        ensures
            r.max_candidates == candidates,
            r.id == self.id,
            r.select == self.select,
            r.first_parent == self.first_parent,
            r.id_as_fallback == self.id_as_fallback,
    {
        Platform {
            id: self.id,
            select: self.select,
            first_parent: self.first_parent,
            id_as_fallback: self.id_as_fallback,
            max_candidates: candidates,
        }
    }

    /// If true, even if no candidate is available a format will always be
    /// produced.
    pub fn id_as_fallback(self, use_fallback: bool) -> (r: Platform)
        ensures
            r.id_as_fallback == use_fallback,
            r.id == self.id,
            r.select == self.select,
            r.first_parent == self.first_parent,
            r.max_candidates == self.max_candidates,
    {
        Platform {
            id: self.id,
            select: self.select,
            first_parent: self.first_parent,
            id_as_fallback: use_fallback,
            max_candidates: self.max_candidates,
        }
    }
}

/// A reference that may give its name to the commit it leads to.
#[derive(Debug, Clone, PartialEq, Eq)]
pub struct NameCandidate {
    /// The commit that the reference leads to.
    pub id: ContentId,
    /// 1 for an annotated tag, 0 for any other reference.
    pub priority: u32,
    /// When the tag was made, in seconds; 0 where there is no tag.
    pub time: i64,
    /// The short name of the reference.
    pub name: Vec<u8>,
}

/// What decides between two candidates.
pub struct CandidateView {
    pub id: Seq<u8>,
    pub priority: u32,
    pub time: i64,
    pub name: Seq<u8>,
}

impl View for NameCandidate {
    type V = CandidateView;

    open spec fn view(&self) -> CandidateView {
        CandidateView { id: self.id@, priority: self.priority, time: self.time, name: self.name@ }
    }
}

/// `a` is chosen over `b`: it has the higher priority; or the same, and
/// the later time; or that too is the same, and its name sorts first.
pub open spec fn preferred(a: CandidateView, b: CandidateView) -> bool {
    a.priority > b.priority || (a.priority == b.priority && (a.time > b.time || (a.time == b.time
        && path_lt(a.name, b.name))))
}

/// The candidates as mathematical values, in their order.
pub open spec fn candidate_views(candidates: Seq<NameCandidate>) -> Seq<CandidateView> {
    Seq::new(candidates.len(), |i: int| candidates[i]@)
}

/// The candidate at `w` gives its name to `id`: it leads to `id`, no
/// candidate that leads there is chosen over it, and it is chosen over
/// all such candidates before it.
pub open spec fn gives_name(candidates: Seq<CandidateView>, id: Seq<u8>, w: int) -> bool {
    &&& 0 <= w < candidates.len()
    &&& candidates[w].id == id
    &&& forall|k: int|
        0 <= k < candidates.len() && (#[trigger] candidates[k]).id == id ==> !preferred(
            candidates[k],
            candidates[w],
        )
    &&& forall|k: int|
        0 <= k < w && (#[trigger] candidates[k]).id == id ==> preferred(
            candidates[w],
            candidates[k],
        )
}

proof fn lemma_preferred_transitive(a: CandidateView, b: CandidateView, c: CandidateView)
    requires
        preferred(a, b),
        preferred(b, c),
    ensures
        preferred(a, c),
{
    if path_lt(a.name, b.name) && path_lt(b.name, c.name) {
        lemma_path_lt_transitive(a.name, b.name, c.name);
    }
}

proof fn lemma_preferred_over_the_rest(a: CandidateView, b: CandidateView, c: CandidateView)
    requires
        preferred(a, b),
        !preferred(c, b),
    ensures
        preferred(a, c),
{
    if a.priority == c.priority && a.time == c.time {
        // Then `b` has the same priority and time, and its name is not after that of `c`.
        lemma_path_order_flip(c.name, b.name);
        lemma_path_order_flip(b.name, c.name);
        lemma_path_order_equal(b.name, c.name);
        if path_order(b.name, c.name) == PathOrder::Less {
            lemma_path_lt_transitive(a.name, b.name, c.name);
        }
    }
}

proof fn lemma_not_preferred_to_itself(a: CandidateView)
    ensures
        !preferred(a, a),
{
    lemma_path_order_equal(a.name, a.name);
}

/// Whether the first candidate is chosen over the second.
pub fn is_preferred(a: &NameCandidate, b: &NameCandidate) -> (r: bool)
    ensures
        r == preferred(a@, b@),
{
    if a.priority != b.priority {
        return a.priority > b.priority;
    }
    if a.time != b.time {
        return a.time > b.time;
    }
    match compare_paths(a.name.as_slice(), b.name.as_slice()) {
        PathOrder::Less => true,
        _ => false,
    }
}

/// The candidate that gives its name to `id`: of those that lead to `id`
/// the one with the highest priority, then the latest time, then the name
/// that sorts first; `None` if no candidate leads to `id`.
pub fn name_for(candidates: &Vec<NameCandidate>, id: &ContentId) -> (r: Option<usize>)
    ensures
        match r {
            Some(w) => gives_name(candidate_views(candidates@), id@, w as int),
            None => forall|k: int|
                0 <= k < candidates@.len() ==> (#[trigger] candidates@[k]).id@ != id@,
        },
{
    let ghost views = candidate_views(candidates@);
    let mut best: Option<usize> = None;
    let mut k: usize = 0;
    while k < candidates.len()
        invariant
            k <= candidates@.len(),
            views == candidate_views(candidates@),
            match best {
                Some(w) => w < k && views[w as int].id == id@ && (forall|j: int|
                    0 <= j < k && (#[trigger] views[j]).id == id@ ==> !preferred(
                        views[j],
                        views[w as int],
                    )) && (forall|j: int|
                    0 <= j < w && (#[trigger] views[j]).id == id@ ==> preferred(
                        views[w as int],
                        views[j],
                    )),
                None => forall|j: int| 0 <= j < k ==> (#[trigger] views[j]).id != id@,
            },
        decreases candidates@.len() - k,
    {
        if bytes_equal(candidates[k].id.bytes.as_slice(), id.bytes.as_slice()) {
            match best {
                None => {
                    proof {
                        lemma_not_preferred_to_itself(views[k as int]);
                    }
                    best = Some(k);
                },
                Some(w) => {
                    if is_preferred(&candidates[k], &candidates[w]) {
                        proof {
                            let now = views[k as int];
                            let was = views[w as int];
                            lemma_not_preferred_to_itself(now);
                            assert forall|j: int|
                                0 <= j < k && (#[trigger] views[j]).id == id@ implies preferred(
                                now,
                                views[j],
                            ) && !preferred(views[j], now) by {
                                lemma_preferred_over_the_rest(now, was, views[j]);
                                if preferred(views[j], now) {
                                    lemma_preferred_transitive(views[j], now, was);
                                }
                            }
                        }
                        best = Some(k);
                    }
                },
            }
        }
        k += 1;
    }
    proof {
        if best is None {
            assert forall|j: int| 0 <= j < candidates@.len() implies (
            #[trigger] candidates@[j]).id@ != id@ by {
                assert(views[j].id != id@);
            }
        }
    }
    best
}

/// The suffix that marks a name as taken from a changed working tree: the
/// one asked for if the working tree has changes, else none.
pub fn suffix_to_use(dirty_suffix: Option<String>, is_dirty: bool) -> (r: Option<String>)
    ensures
        r == if is_dirty {
            dirty_suffix
        } else {
            None
        },
{
    if is_dirty {
        dirty_suffix
    } else {
        None
    }
}

} // verus!
