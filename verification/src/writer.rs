//! The fan-in writer's buffering rule: records accumulate in arrival order
//! up to a fixed flush threshold; a full buffer is handed out as one batch
//! (a row group) and cleared, and whatever remains at the end is handed out
//! as the final batch. The module also declares the fixed output schema.

use vstd::prelude::*;

use crate::scanner::EnrichedRecord;

verus! {

/// The in-memory buffer feeding one output file.
#[derive(Debug)]
pub struct RecordBuffer {
    /// The records received and not yet flushed, in arrival order.
    pub buffer: Vec<EnrichedRecord>,
    /// The batch size at which the buffer is flushed.
    pub flush_threshold: usize,
}

impl RecordBuffer {
    /// The threshold is positive and the buffer is always strictly below it.
    pub open spec fn wf(self) -> bool {
        self.flush_threshold >= 1 && self.buffer@.len() < self.flush_threshold
    }

    /// An empty buffer flushing at `flush_threshold` records.
    pub fn new(flush_threshold: usize) -> (r: Self)
        requires
            flush_threshold >= 1,
        ensures
            r.wf(),
            r.buffer@.len() == 0,
            r.flush_threshold == flush_threshold,
    {
        RecordBuffer { buffer: Vec::new(), flush_threshold }
    }

    /// Buffers one record. When that fills the buffer to the threshold, the
    /// whole batch comes back in arrival order and the buffer empties;
    /// otherwise the record stays buffered.
    pub fn push(&mut self, record: EnrichedRecord) -> (batch: Option<Vec<EnrichedRecord>>)
        requires
            old(self).wf(),
        ensures
            final(self).wf(),
            final(self).flush_threshold == old(self).flush_threshold,
            old(self).buffer@.len() + 1 == old(self).flush_threshold ==> (batch matches Some(b)
                && b@ == old(self).buffer@.push(record) && final(self).buffer@.len() == 0),
            old(self).buffer@.len() + 1 < old(self).flush_threshold ==> (batch is None
                && final(self).buffer@ == old(self).buffer@.push(record)),
    {
        self.buffer.push(record);
        if self.buffer.len() >= self.flush_threshold {
            let mut batch: Vec<EnrichedRecord> = Vec::new();
            core::mem::swap(&mut batch, &mut self.buffer);
            Some(batch)
        } else {
            None
        }
    }

    /// Hands back whatever remains buffered; written as the file's last
    /// batch when non-empty.
    pub fn finish(self) -> (rest: Vec<EnrichedRecord>)
        ensures
            rest@ == self.buffer@,
    {
        self.buffer
    }
}

/// One column of the fixed output schema.
#[derive(Debug)]
pub struct SchemaField {
    /// The column's name.
    pub name: &'static str,
    /// Whether the column may hold nulls.
    pub nullable: bool,
}

/// The fixed, pre-declared schema of the output file: every row group is
/// written with these eight columns, in this order.
pub fn schema_fields() -> (r: Vec<SchemaField>)
    ensures
        r@.len() == 8,
        r@[0].name@ == "hash"@ && !r@[0].nullable,
        r@[1].name@ == "dataset_names"@ && !r@[1].nullable,
        r@[2].name@ == "taxonomy_list"@ && r@[2].nullable,
        r@[3].name@ == "lca_lineage"@ && r@[3].nullable,
        r@[4].name@ == "lca_rank"@ && r@[4].nullable,
        r@[5].name@ == "ksize"@ && !r@[5].nullable,
        r@[6].name@ == "scaled"@ && !r@[6].nullable,
        r@[7].name@ == "source"@ && !r@[7].nullable,
{
    let mut fields: Vec<SchemaField> = Vec::new();
    fields.push(SchemaField { name: "hash", nullable: false });
    fields.push(SchemaField { name: "dataset_names", nullable: false });
    fields.push(SchemaField { name: "taxonomy_list", nullable: true });
    fields.push(SchemaField { name: "lca_lineage", nullable: true });
    fields.push(SchemaField { name: "lca_rank", nullable: true });
    fields.push(SchemaField { name: "ksize", nullable: false });
    fields.push(SchemaField { name: "scaled", nullable: false });
    fields.push(SchemaField { name: "source", nullable: false });
    fields
}

} // verus!
