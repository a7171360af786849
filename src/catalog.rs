//! Rewriting rows of the `CPK_ITEM` catalog for files replaced on disk: the
//! row stops pointing into an archive and takes the new file's size.
use vstd::prelude::*;

verus! {

/// One row of the `CPK_ITEM` catalog.
#[derive(Debug, Clone)]
pub struct CatalogRow {
    pub directory: String,
    pub file_name: String,
    /// Third cell: cleared when the file is replaced.
    pub archive_dir: String,
    /// Fourth cell: the archive that holds the file; cleared when the file
    /// is replaced.
    pub archive_name: String,
    pub file_size: i32,
}

/// A row as mathematical values.
pub struct RowView {
    pub directory: Seq<char>,
    pub file_name: Seq<char>,
    pub archive_dir: Seq<char>,
    pub archive_name: Seq<char>,
    pub file_size: i32,
}

impl View for CatalogRow {
    type V = RowView;

    open spec fn view(&self) -> RowView {
        RowView {
            directory: self.directory@,
            file_name: self.file_name@,
            archive_dir: self.archive_dir@,
            archive_name: self.archive_name@,
            file_size: self.file_size,
        }
    }
}

/// A file of the mod folder that replaces the file of catalog row `row`.
#[derive(Debug, Clone, Copy)]
pub struct Replacement {
    pub row: usize,
    pub size: u64,
}

/// The size of the last replacement of row `i` among `reps`, if any.
pub open spec fn replaced_size(reps: Seq<Replacement>, i: int) -> Option<u64>
    decreases reps.len(),
{
    if reps.len() == 0 {
        None
    } else if reps.last().row == i {
        Some(reps.last().size)
    } else {
        replaced_size(reps.drop_last(), i)
    }
}

/// Row `r` once replaced by a file of `size` bytes.
pub open spec fn replaced_row(r: RowView, size: u64) -> RowView {
    RowView {
        directory: r.directory,
        file_name: r.file_name,
        archive_dir: Seq::empty(),
        archive_name: Seq::empty(),
        file_size: size as i32,
    }
}

/// The catalog after the replacements.
pub open spec fn repacked(rows: Seq<RowView>, reps: Seq<Replacement>) -> Seq<RowView> {
    Seq::new(
        rows.len(),
        |i: int|
            match replaced_size(reps, i) {
                Some(size) => replaced_row(rows[i], size),
                None => rows[i],
            },
    )
}

/// Rewrites the rows that the replacements name: both archive cells are
/// cleared and the size becomes the new file's (truncated to `i32`, as the
/// catalog stores it). A replacement of a row that does not exist is
/// ignored.
pub fn apply_replacements(rows: &mut Vec<CatalogRow>, replacements: &Vec<Replacement>)
    ensures
        final(rows)@.map_values(|r: CatalogRow| r@) == repacked(
            old(rows)@.map_values(|r: CatalogRow| r@),
            replacements@,
        ),
{
    let ghost orig = old(rows)@.map_values(|r: CatalogRow| r@);
    let mut k: usize = 0;
    while k < replacements.len()
        invariant
            k <= replacements@.len(),
            rows@.len() == orig.len(),
            rows@.map_values(|r: CatalogRow| r@) == repacked(orig, replacements@.subrange(0, k as int)),
        decreases replacements@.len() - k,
    {
        let rep = replacements[k];
        let ghost prefix = replacements@.subrange(0, k as int);
        let ghost next = replacements@.subrange(0, k + 1);
        assert(next.drop_last() =~= prefix);
        assert(next.last() == rep);
        let ghost before = rows@.map_values(|r: CatalogRow| r@);
        if rep.row < rows.len() {
            let old_row = &rows[rep.row];
            let new_row = CatalogRow {
                directory: old_row.directory.clone(),
                file_name: old_row.file_name.clone(),
                archive_dir: String::new(),
                archive_name: String::new(),
                file_size: rep.size as i32,
            };
            rows.set(rep.row, new_row);
        }
        k = k + 1;
        proof {
            let after = rows@.map_values(|r: CatalogRow| r@);
            let want = repacked(orig, next);
            assert forall|i: int| 0 <= i < orig.len() implies after[i] == want[i] by {
                assert(before[i] == repacked(orig, prefix)[i]);
                if i == rep.row {
                    assert(after[i] =~= replaced_row(before[i], rep.size));
                    assert(replaced_row(before[i], rep.size) =~= replaced_row(orig[i], rep.size));
                } else {
                    assert(replaced_size(next, i) == replaced_size(prefix, i));
                }
            }
            assert(after =~= want);
        }
    }
    proof {
        assert(replacements@.subrange(0, replacements@.len() as int) =~= replacements@);
    }
}

/// The catalog row of the file `file_name` in `directory`: the last row
/// after the header row (row 0) with that directory and name.
pub fn catalog_row_index(rows: &Vec<CatalogRow>, directory: &String, file_name: &String) -> (r: Option<
    usize,
>)
    ensures
        r matches Some(i) ==> 1 <= i < rows@.len() && rows@[i as int].directory@ == directory@
            && rows@[i as int].file_name@ == file_name@ && forall|j: int|
            i < j < rows@.len() ==> !(rows@[j].directory@ == directory@ && #[trigger] rows@[j].file_name@
                == file_name@),
        r is None ==> forall|j: int|
            1 <= j < rows@.len() ==> !(rows@[j].directory@ == directory@ && #[trigger] rows@[j].file_name@
                == file_name@),
{
    let mut found: Option<usize> = None;
    let mut i: usize = 1;
    while i < rows.len()
        invariant
            1 <= i <= rows@.len() || rows@.len() == 0,
            found matches Some(k) ==> 1 <= k < i && k < rows@.len() && rows@[k as int].directory@ == directory@
                && rows@[k as int].file_name@ == file_name@ && forall|j: int|
                k < j < i ==> !(rows@[j].directory@ == directory@ && #[trigger] rows@[j].file_name@
                    == file_name@),
            found is None ==> forall|j: int|
                1 <= j < i ==> !(rows@[j].directory@ == directory@ && #[trigger] rows@[j].file_name@
                    == file_name@),
        decreases rows@.len() - i,
    {
        if rows[i].directory.eq(directory) && rows[i].file_name.eq(file_name) {
            found = Some(i);
        }
        i = i + 1;
    }
    found
}

/// Repacking is idempotent: applying the same replacements to a catalog
/// that already has them changes nothing.
pub proof fn lemma_repack_idempotent(rows: Seq<RowView>, reps: Seq<Replacement>)
    ensures
        repacked(repacked(rows, reps), reps) == repacked(rows, reps),
{
    assert(repacked(repacked(rows, reps), reps) =~= repacked(rows, reps));
}

} // verus!
