//! Which records of the history a candidate is compared with. Whether the
//! games that earlier runs generated should count as past draws is a matter
//! of policy, so the caller decides.

use crate::draw::MegaSena;
use vstd::prelude::*;

verus! {

/// The records that the overlap and trio checks compare a candidate with.
#[derive(Debug, Clone, Copy, PartialEq, Eq, Structural)]
pub enum Corpus {
    /// Every record of the history, drawn or generated: a new game also
    /// avoids the games of earlier runs.
    AllRecords,
    /// Only the records that were drawn.
    DrawnOnly,
}

/// Whether a record is one that candidates are compared with.
pub open spec fn takes_part(record: MegaSena, corpus: Corpus) -> bool {
    corpus == Corpus::AllRecords || !record.generated_by_rust
}

/// The records of the history that take part, in the order of the history.
pub open spec fn selected(history: Seq<MegaSena>, corpus: Corpus) -> Seq<MegaSena>
    decreases history.len(),
{
    if history.len() == 0 {
        Seq::empty()
    } else if takes_part(history.last(), corpus) {
        selected(history.drop_last(), corpus).push(history.last())
    } else {
        selected(history.drop_last(), corpus)
    }
}

/// With every record taking part the selection is the history itself.
pub proof fn lemma_all_records_selects_the_history(history: Seq<MegaSena>)
    ensures
        selected(history, Corpus::AllRecords) == history,
    decreases history.len(),
{
    if history.len() > 0 {
        lemma_all_records_selects_the_history(history.drop_last());
        assert(history.drop_last().push(history.last()) =~= history);
    } else {
        assert(history =~= Seq::<MegaSena>::empty());
    }
}

/// The selection holds exactly the records of the history that take part.
pub proof fn lemma_selected_records(history: Seq<MegaSena>, corpus: Corpus)
    ensures
        forall|record: MegaSena|
            #![trigger selected(history, corpus).contains(record)]
            #![trigger history.contains(record)]
            selected(history, corpus).contains(record) <==> (history.contains(record)
                && takes_part(record, corpus)),
    decreases history.len(),
{
    if history.len() > 0 {
        let rest = history.drop_last();
        let last = history.last();
        lemma_selected_records(rest, corpus);
        assert forall|record: MegaSena|
            #![trigger selected(history, corpus).contains(record)]
            #![trigger history.contains(record)]
            selected(history, corpus).contains(record) <==> (history.contains(record)
                && takes_part(record, corpus)) by {
            let chosen = selected(history, corpus);
            if chosen.contains(record) {
                let i = choose|i: int| 0 <= i < chosen.len() && chosen[i] == record;
                if takes_part(last, corpus) && i == chosen.len() - 1 {
                    assert(history[history.len() - 1] == record);
                } else {
                    assert(selected(rest, corpus)[i] == record);
                    assert(selected(rest, corpus).contains(record));
                    let k = choose|k: int| 0 <= k < rest.len() && rest[k] == record;
                    assert(history[k] == record);
                }
            }
            if history.contains(record) && takes_part(record, corpus) {
                let k = choose|k: int| 0 <= k < history.len() && history[k] == record;
                if k == history.len() - 1 {
                    assert(chosen[chosen.len() - 1] == record);
                } else {
                    assert(rest[k] == record);
                    assert(rest.contains(record));
                    let i = choose|i: int|
                        0 <= i < selected(rest, corpus).len() && selected(rest, corpus)[i]
                            == record;
                    assert(chosen[i] == record);
                }
            }
        }
    }
}

/// Copies out the records of the history that candidates are compared
/// with.
pub fn select_corpus(history: &Vec<MegaSena>, corpus: Corpus) -> (r: Vec<MegaSena>)
    ensures
        r@ == selected(history@, corpus),
{
    let mut chosen: Vec<MegaSena> = Vec::new();
    let mut i: usize = 0;
    assert(history@.take(0) =~= Seq::<MegaSena>::empty());
    while i < history.len()
        invariant
            i <= history.len(),
            chosen@ == selected(history@.take(i as int), corpus),
        decreases history.len() - i,
    {
        proof {
            let longer = history@.take(i as int + 1);
            assert(longer.drop_last() =~= history@.take(i as int));
            assert(longer.last() == history@[i as int]);
        }
        let record = &history[i];
        let included = match corpus {
            Corpus::AllRecords => true,
            Corpus::DrawnOnly => !record.generated_by_rust,
        };
        if included {
            chosen.push(record.duplicate());
        }
        i += 1;
    }
    assert(history@.take(history@.len() as int) =~= history@);
    chosen
}

} // verus!
