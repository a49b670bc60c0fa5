//! The documents on which an operation is running.
//!
//! A document has at most one operation at a time. It is taken when an operation
//! begins and given back when it ends, however it ends.
use crate::error::AppError;
use crate::error::AppResult;
use crate::error::Failure;
use crate::text;
use vstd::prelude::*;

verus! {

pub const ALREADY_RUNNING: &'static str =
    "Another Ansible Vault operation is already running for this document";

/// The documents that are taken, by their URIs.
#[derive(Debug)]
pub struct ActiveOperations {
    documents: Vec<String>,
}

/// Whether no document is listed twice.
pub open spec fn once_each(documents: Seq<Seq<char>>) -> bool {
    forall|i: int, j: int|
        0 <= i < j < documents.len() ==> #[trigger] documents[i] != #[trigger] documents[j]
}

/// What the start of an operation makes of the taken documents.
pub open spec fn begun(taken: Set<Seq<char>>, document: Seq<char>) -> (
    Set<Seq<char>>,
    Result<(), Failure>,
) {
    if taken.contains(document) {
        (taken, Err(Failure::User(ALREADY_RUNNING@)))
    } else {
        (taken.insert(document), Ok(()))
    }
}

/// What the end of an operation makes of the taken documents, whether it
/// succeeded or failed.
pub open spec fn finished(
    taken: Set<Seq<char>>,
    document: Seq<char>,
    outcome: Result<(), Failure>,
) -> (Set<Seq<char>>, Result<(), Failure>) {
    (taken.remove(document), outcome)
}

/// An answer as contracts speak of it.
pub open spec fn answered(r: AppResult<()>) -> Result<(), Failure> {
    match r {
        Ok(_) => Ok(()),
        Err(error) => Err(error@),
    }
}

impl View for ActiveOperations {
    type V = Set<Seq<char>>;

    closed spec fn view(&self) -> Set<Seq<char>> {
        text::texts(self.documents@).to_set()
    }
}

impl ActiveOperations {
    #[verifier::type_invariant]
    spec fn wf(self) -> bool {
        once_each(text::texts(self.documents@))
    }

    /// No document is taken.
    pub fn new() -> (r: ActiveOperations)
        ensures
            r@ == Set::<Seq<char>>::empty(),
    {
        let r = ActiveOperations { documents: Vec::new() };
        proof {
            assert(r@ =~= Set::<Seq<char>>::empty());
        }
        r
    }

    /// The place of a document in the list.
    fn place(documents: &Vec<String>, document: &str) -> (r: Option<usize>)
        ensures
            match r {
                Some(i) => i < documents@.len() && documents@[i as int]@ == document@,
                None => !text::texts(documents@).contains(document@),
            },
    {
        for i in 0..documents.len()
            invariant
                forall|j: int| 0 <= j < i ==> #[trigger] text::texts(documents@)[j] != document@,
        {
            if text::same_str(documents[i].as_str(), document) {
                return Some(i);
            }
            proof {
                assert(text::texts(documents@)[i as int] == documents@[i as int]@);
            }
        }
        None
    }

    /// Whether an operation is running on a document.
    pub fn is_taken(&self, document: &str) -> (r: bool)
        ensures
            r == self@.contains(document@),
    {
        let place = Self::place(&self.documents, document);
        proof {
            if let Some(i) = place {
                assert(text::texts(self.documents@)[i as int] == document@);
            }
        }
        place.is_some()
    }

    /// Takes a document for an operation. A document that is taken already is
    /// refused, and nothing changes.
    pub fn begin(&mut self, document: &str) -> (r: AppResult<()>)
        ensures
            (final(self)@, answered(r)) == begun(old(self)@, document@),
    {
        if self.is_taken(document) {
            return Err(AppError::told(ALREADY_RUNNING));
        }
        proof {
            use_type_invariant(&*self);
        }
        let ghost before = text::texts(self.documents@);
        let mut documents: Vec<String> = Vec::new();
        std::mem::swap(&mut documents, &mut self.documents);
        documents.push(document.to_string());
        proof {
            let after = text::texts(documents@);
            assert(after =~= before.push(document@));
            assert forall|i: int, j: int| 0 <= i < j < after.len() implies #[trigger] after[i]
                != #[trigger] after[j] by {
                assert(after[i] == before[i]);
                if j < before.len() {
                    assert(after[j] == before[j]);
                } else {
                    assert(before.contains(before[i]));
                }
            }
            assert(after.to_set() =~= before.to_set().insert(document@)) by {
                assert forall|d: Seq<char>| after.contains(d) <==> (before.contains(d) || d
                    == document@) by {
                    if before.contains(d) {
                        let k = choose|k: int| 0 <= k < before.len() && before[k] == d;
                        assert(after[k] == d);
                    }
                    assert(after[before.len() as int] == document@);
                }
            }
        }
        self.documents = documents;
        Ok(())
    }

    /// Gives a document back when its operation ends, and hands the outcome on.
    pub fn finish(&mut self, document: &str, outcome: AppResult<()>) -> (r: AppResult<()>)
        ensures
            (final(self)@, answered(r)) == finished(old(self)@, document@, answered(outcome)),
            r == outcome,
    {
        proof {
            use_type_invariant(&*self);
        }
        let ghost before = text::texts(self.documents@);
        let place = Self::place(&self.documents, document);
        match place {
            None => {
                proof {
                    assert(before.to_set().remove(document@) =~= before.to_set());
                }
            },
            Some(i) => {
                let mut documents: Vec<String> = Vec::new();
                std::mem::swap(&mut documents, &mut self.documents);
                documents.remove(i);
                proof {
                    let after = text::texts(documents@);
                    assert(after =~= before.remove(i as int));
                    assert(before[i as int] == document@);
                    assert forall|j: int, k: int| 0 <= j < k < after.len() implies #[trigger] after[j]
                        != #[trigger] after[k] by {
                        let p = if j < i { j } else { j + 1 };
                        let q = if k < i { k } else { k + 1 };
                        assert(after[j] == before[p]);
                        assert(after[k] == before[q]);
                    }
                    assert(after.to_set() =~= before.to_set().remove(document@)) by {
                        assert forall|d: Seq<char>| after.contains(d) <==> (before.contains(d) && d
                            != document@) by {
                            if after.contains(d) {
                                let k = choose|k: int| 0 <= k < after.len() && after[k] == d;
                                let q = if k < i { k } else { k + 1 };
                                assert(before[q] == d);
                            }
                            if before.contains(d) && d != document@ {
                                let q = choose|q: int| 0 <= q < before.len() && before[q] == d;
                                let k = if q < i { q } else { q - 1 };
                                assert(after[k] == d);
                            }
                        }
                    }
                }
                self.documents = documents;
            },
        }
        outcome
    }
}

// ---------------------------------------------------------------------------
// Laws
// ---------------------------------------------------------------------------

/// While an operation runs on a document, a second one is refused and changes
/// nothing.
pub proof fn law_second_operation_is_refused(taken: Set<Seq<char>>, document: Seq<char>)
    ensures
        begun(begun(taken, document).0, document) == (
            begun(taken, document).0,
            Err::<(), Failure>(Failure::User(ALREADY_RUNNING@)),
        ),
{
}

/// An operation that was let in leaves no trace when it has ended, whether it
/// succeeded or failed.
pub proof fn law_ended_operations_leave_no_trace(
    taken: Set<Seq<char>>,
    document: Seq<char>,
    outcome: Result<(), Failure>,
)
    requires
        begun(taken, document).1 is Ok,
    ensures
        finished(begun(taken, document).0, document, outcome) == (taken, outcome),
{
    assert(taken.insert(document).remove(document) =~= taken);
}

/// A document is free for the next operation as soon as one on it has ended,
/// whether that one succeeded or failed.
pub proof fn law_ended_operations_free_their_document(
    taken: Set<Seq<char>>,
    document: Seq<char>,
    outcome: Result<(), Failure>,
)
    ensures
        begun(finished(taken, document, outcome).0, document).1 is Ok,
{
}

/// Operations on different documents do not hinder one another.
pub proof fn law_documents_are_independent(
    taken: Set<Seq<char>>,
    document: Seq<char>,
    other: Seq<char>,
    outcome: Result<(), Failure>,
)
    requires
        document != other,
    ensures
        begun(begun(taken, document).0, other).1 == begun(taken, other).1,
        begun(finished(taken, document, outcome).0, other).1 == begun(taken, other).1,
{
}

/// The first operation on a document is let in, and a second one is told why it is not.
pub proof fn law_one_operation_at_a_time(taken: Set<Seq<char>>, document: Seq<char>)
    ensures
        !taken.contains(document) ==> begun(taken, document).1 is Ok,
        begun(taken, document).0.contains(document),
        taken.contains(document) ==> begun(taken, document).1 == Err::<(), Failure>(
            Failure::User(
                "Another Ansible Vault operation is already running for this document"@,
            ),
        ),
{
}

} // verus!
