//! Import records, as extracted from source files by the caller's parser.

use vstd::prelude::*;

verus! {

/// The statement form an import was extracted from.
#[derive(Clone, Copy, PartialEq, Eq, Structural, Debug)]
pub enum ImportKind {
    /// `import ... from 'x'`
    EsModule,
    /// `require('x')`
    CommonJs,
    /// `import('x')`
    Dynamic,
    /// `export * from 'x'` or `export {..} from 'x'`
    ReExport,
}

/// One import statement found in a source file.
pub struct ImportRecord {
    /// The specifier written in the statement.
    pub source: String,
    /// The 1-indexed line of the statement.
    pub line: u32,
    /// The statement text, for reporting.
    pub raw_text: String,
    /// Whether the import carries types only.
    pub is_type_only: bool,
    /// The statement form.
    pub kind: ImportKind,
}

impl Clone for ImportRecord {
    fn clone(&self) -> (r: Self)
        ensures
            r == *self,
    {
        ImportRecord {
            source: self.source.clone(),
            line: self.line,
            raw_text: self.raw_text.clone(),
            is_type_only: self.is_type_only,
            kind: self.kind,
        }
    }
}

/// Whether a record takes part in analysis: with the type-only policy
/// enabled, an import that carries types only is excluded.
pub open spec fn spec_keeps_record(rec: ImportRecord, ignore_type_imports: bool) -> bool {
    !(ignore_type_imports && rec.is_type_only)
}

/// The records that take part in analysis, in their original order.
pub open spec fn spec_kept_records(s: Seq<ImportRecord>, ignore_type_imports: bool) -> Seq<
    ImportRecord,
>
    decreases s.len(),
{
    if s.len() == 0 {
        Seq::<ImportRecord>::empty()
    } else {
        let rest = spec_kept_records(s.drop_last(), ignore_type_imports);
        if spec_keeps_record(s.last(), ignore_type_imports) {
            rest.push(s.last())
        } else {
            rest
        }
    }
}

/// Applies the type-only policy: when `ignore_type_imports` is set, imports
/// that carry types only are dropped; everything else is kept, in order.
pub fn filter_type_only(records: &Vec<ImportRecord>, ignore_type_imports: bool) -> (r: Vec<
    ImportRecord,
>)
    ensures
        r@ == spec_kept_records(records@, ignore_type_imports),
{
    let mut r: Vec<ImportRecord> = Vec::new();
    let mut i: usize = 0;
    proof {
        assert(records@.take(0) =~= Seq::<ImportRecord>::empty());
        assert(r@ =~= spec_kept_records(records@.take(0), ignore_type_imports));
    }
    while i < records.len()
        invariant
            i <= records.len(),
            r@ == spec_kept_records(records@.take(i as int), ignore_type_imports),
        decreases records.len() - i,
    {
        proof {
            assert(records@.take(i + 1).drop_last() =~= records@.take(i as int));
            assert(records@.take(i + 1).last() == records@[i as int]);
        }
        if !(ignore_type_imports && records[i].is_type_only) {
            r.push(records[i].clone());
        }
        i = i + 1;
    }
    proof {
        assert(records@.take(records.len() as int) =~= records@);
    }
    r
}

} // verus!
