//! The record of a historical draw as the store keeps it.

use crate::draw::{slot_value, MegaSena};
use vstd::prelude::*;

verus! {

/// One historical draw. Unlike [`MegaSena`] it carries no origin tag: it was
/// always drawn, never generated.
#[derive(Debug, Clone, PartialEq, Eq)]
pub struct HistoricoMegaSena {
    pub id: i64,
    pub concurso: i64,
    pub data: String,
    pub bola_1: Option<i64>,
    pub bola_2: Option<i64>,
    pub bola_3: Option<i64>,
    pub bola_4: Option<i64>,
    pub bola_5: Option<i64>,
    pub bola_6: Option<i64>,
    pub inserted_at: String,
}

impl View for HistoricoMegaSena {
    type V = Seq<Option<int>>;

    /// The six slots, first to last.
    open spec fn view(&self) -> Seq<Option<int>> {
        seq![
            slot_value(self.bola_1),
            slot_value(self.bola_2),
            slot_value(self.bola_3),
            slot_value(self.bola_4),
            slot_value(self.bola_5),
            slot_value(self.bola_6),
        ]
    }
}

impl HistoricoMegaSena {
    /// The same draw as a record that the filters take, tagged as drawn.
    pub fn into_mega_sena(self) -> (r: MegaSena)
        ensures
            r@ == self@,
            !r.generated_by_rust,
            r.id == self.id,
            r.concurso == self.concurso,
            r.data == self.data,
            r.inserted_at == self.inserted_at,
            r.bola_1 == self.bola_1,
            r.bola_2 == self.bola_2,
            r.bola_3 == self.bola_3,
            r.bola_4 == self.bola_4,
            r.bola_5 == self.bola_5,
            r.bola_6 == self.bola_6,
    {
        MegaSena {
            id: self.id,
            concurso: self.concurso,
            data: self.data,
            bola_1: self.bola_1,
            bola_2: self.bola_2,
            bola_3: self.bola_3,
            bola_4: self.bola_4,
            bola_5: self.bola_5,
            bola_6: self.bola_6,
            inserted_at: self.inserted_at,
            generated_by_rust: false,
        }
    }
}

} // verus!
