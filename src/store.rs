//! The published snapshot: the one serialized report that readers see.
use vstd::prelude::*;

verus! {

/// What a read returns before anything has been published.
pub open spec fn fallback_text() -> Seq<char> {
    "{}"@
}

/// What a read returns from a store whose value is `current`.
pub open spec fn read_of(current: Option<Seq<char>>) -> Seq<char> {
    match current {
        Some(s) => s,
        None => fallback_text(),
    }
}

/// The value of a store after the publications `history`, oldest first.
pub open spec fn after_publishing(history: Seq<Seq<char>>) -> Option<Seq<char>> {
    if history.len() == 0 {
        None
    } else {
        Some(history.last())
    }
}

/// Holds the latest published report, replaced as a whole on each publication.
pub struct SnapshotStore {
    current: Option<String>,
}

impl View for SnapshotStore {
    type V = Option<Seq<char>>;

    closed spec fn view(&self) -> Option<Seq<char>> {
        match self.current {
            Some(s) => Some(s@),
            None => None,
        }
    }
}

impl SnapshotStore {
    /// A store on which nothing has been published.
    pub fn new() -> (r: SnapshotStore)
        ensures
            r@ is None,
    {
        SnapshotStore { current: None }
    }

    /// Replaces the visible value with `report`.
    pub fn publish(&mut self, report: String)
        ensures
            final(self)@ == Some(report@),
    {
        self.current = Some(report);
    }

    /// The visible value, or `{}` when nothing has been published.
    pub fn read(&self) -> (r: String)
        ensures
            r@ == read_of(self@),
    {
        match &self.current {
            Some(s) => s.clone(),
            None => "{}".to_owned(),
        }
    }
}

/// After any sequence of publications, a read returns either the fallback
/// (when there was none) or one published value in full: the latest one.
pub proof fn lemma_read_is_a_whole_publication(history: Seq<Seq<char>>)
    ensures
        history.len() == 0 ==> read_of(after_publishing(history)) == fallback_text(),
        history.len() > 0 ==> read_of(after_publishing(history)) == history.last(),
        read_of(after_publishing(history)) == fallback_text()
            || exists|i: int| 0 <= i < history.len() && read_of(after_publishing(history)) == #[trigger] history[i],
{
    if history.len() > 0 {
        assert(read_of(after_publishing(history)) == history[history.len() - 1]);
    }
}

/// Publishing `v` onto a store whose value is that of `history` gives the
/// value of `history` followed by `v`.
pub proof fn lemma_publish_extends_history(history: Seq<Seq<char>>, v: Seq<char>)
    ensures
        after_publishing(history.push(v)) == Some(v),
{
}

} // verus!
