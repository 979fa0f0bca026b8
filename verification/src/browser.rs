//! The file browser: the rows of a directory listing, in the order the
//! player shows them.
use vstd::prelude::*;

use crate::audio::{is_audio_path, is_audio_path_spec};
use crate::text::{
    chars_of, lemma_text_lt_total, lemma_text_lt_transitive, owned, text_less, text_lt,
    to_lowercase, unicode_lowercase,
};

verus! {

/// A row of the listing: the parent directory, a directory, or an audio file.
#[derive(Debug)]
pub enum Row {
    Parent,
    Dir { name: String, path: String },
    File { name: String, path: String, size: u64 },
}

/// A row as text.
pub enum RowView {
    Parent,
    Dir { name: Seq<char>, path: Seq<char> },
    File { name: Seq<char>, path: Seq<char>, size: u64 },
}

impl View for Row {
    type V = RowView;

    open spec fn view(&self) -> RowView {
        match self {
            Row::Parent => RowView::Parent,
            Row::Dir { name, path } => RowView::Dir { name: name@, path: path@ },
            Row::File { name, path, size } => RowView::File { name: name@, path: path@, size: *size },
        }
    }
}

/// The name shown for a row; the parent directory is `..`.
pub open spec fn row_name(r: RowView) -> Seq<char> {
    match r {
        RowView::Parent => ".."@,
        RowView::Dir { name, .. } => name,
        RowView::File { name, .. } => name,
    }
}

/// The path a row leads to; the parent directory has none of its own.
pub open spec fn row_path(r: RowView) -> Option<Seq<char>> {
    match r {
        RowView::Parent => None,
        RowView::Dir { path, .. } => Some(path),
        RowView::File { path, .. } => Some(path),
    }
}

impl Row {
    /// The name shown for the row.
    pub fn name(&self) -> (r: String)
        ensures
            r@ == row_name(self@),
    {
        match self {
            Row::Parent => owned(".."),
            Row::Dir { name, .. } => name.clone(),
            Row::File { name, .. } => name.clone(),
        }
    }

    /// The path the row leads to.
    pub fn path(&self) -> (r: Option<String>)
        ensures
            match r {
                Some(p) => row_path(self@) == Some(p@),
                None => row_path(self@) is None,
            },
    {
        match self {
            Row::Parent => None,
            Row::Dir { path, .. } => Some(path.clone()),
            Row::File { path, .. } => Some(path.clone()),
        }
    }

    /// Whether the row is an audio file.
    pub fn is_file(&self) -> (r: bool)
        ensures
            r == (self@ is File),
    {
        match self {
            Row::File { .. } => true,
            _ => false,
        }
    }
}

// ---------------------------------------------------------------------------
// Stable sorting by lower-cased name
// ---------------------------------------------------------------------------

/// The key rows are sorted by: the Unicode lower case of the name.
pub open spec fn sort_key(r: RowView) -> Seq<char> {
    unicode_lowercase(row_name(r))
}

/// Whether the row `a`, found at `i` in the input, comes before the row `b`,
/// found at `j`: by key, and by input position among equal keys.
pub open spec fn orders_before(a: RowView, i: int, b: RowView, j: int) -> bool {
    text_lt(sort_key(a), sort_key(b)) || (sort_key(a) == sort_key(b) && i < j)
}

/// `p` takes each place of `out` to a distinct place of `inp` holding the
/// same row, and along `out` the rows come in the order `orders_before`.
pub open spec fn is_sort_permutation(out: Seq<RowView>, inp: Seq<RowView>, p: Seq<int>) -> bool {
    &&& p.len() == inp.len()
    &&& out.len() == inp.len()
    &&& forall|j: int| 0 <= j < p.len() ==> 0 <= #[trigger] p[j] < inp.len() && out[j] == inp[p[j]]
    &&& forall|j: int, k: int|
        0 <= j < k < p.len() ==> p[j] != p[k] && orders_before(
            out[j],
            #[trigger] p[j],
            out[k],
            #[trigger] p[k],
        )
}

/// `out` is `inp` sorted by key, rows with equal keys keeping their order
/// (what the stable `sort_by` gives).
pub open spec fn is_stable_sort(out: Seq<RowView>, inp: Seq<RowView>) -> bool {
    exists|p: Seq<int>| is_sort_permutation(out, inp, p)
}

/// The views of a vector of rows.
pub open spec fn views(rows: Seq<Row>) -> Seq<RowView> {
    rows.map_values(|r: Row| r@)
}

/// Sorts rows stably by the lower case of their names.
pub fn sort_rows(rows: Vec<Row>) -> (r: Vec<Row>)
    ensures
        is_stable_sort(views(r@), views(rows@)),
{
    let ghost inp = views(rows@);
    let n = rows.len();
    let mut rem = rows;
    let mut keys: Vec<Vec<char>> = Vec::new();
    for i in 0..n
        invariant
            n == rem.len(),
            inp == views(rem@),
            keys.len() == i,
            forall|j: int| 0 <= j < i ==> (#[trigger] keys@[j])@ == sort_key(inp[j]),
    {
        let nm = rem[i].name();
        let low = to_lowercase(nm.as_str());
        keys.push(chars_of(low.as_str()));
    }
    let mut out: Vec<Row> = Vec::new();
    let ghost mut perm: Seq<int> = seq![];
    let ghost mut ridx: Seq<int> = Seq::new(n as nat, |i: int| i);
    while rem.len() > 0
        invariant
            inp.len() == n,
            rem.len() == keys.len() == ridx.len(),
            out.len() == perm.len(),
            out.len() + rem.len() == n,
            forall|j: int|
                0 <= j < rem.len() ==> 0 <= #[trigger] ridx[j] < n && rem@[j]@ == inp[ridx[j]]
                    && keys@[j]@ == sort_key(inp[ridx[j]]),
            forall|j: int, k: int| 0 <= j < k < ridx.len() ==> #[trigger] ridx[j] < #[trigger] ridx[k],
            forall|j: int|
                0 <= j < perm.len() ==> 0 <= #[trigger] perm[j] < n && out@[j]@ == inp[perm[j]],
            forall|j: int, k: int|
                0 <= j < k < perm.len() ==> perm[j] != perm[k] && orders_before(
                    inp[perm[j]],
                    #[trigger] perm[j],
                    inp[perm[k]],
                    #[trigger] perm[k],
                ),
            forall|j: int, k: int|
                0 <= j < perm.len() && 0 <= k < ridx.len() ==> perm[j] != ridx[k] && orders_before(
                    inp[perm[j]],
                    #[trigger] perm[j],
                    inp[ridx[k]],
                    #[trigger] ridx[k],
                ),
        decreases rem.len(),
    {
        let mut best: usize = 0;
        let mut i: usize = 1;
        while i < rem.len()
            invariant
                rem.len() == keys.len(),
                best < i <= rem.len(),
                forall|j: int| 0 <= j < best ==> text_lt(keys@[best as int]@, #[trigger] keys@[j]@),
                forall|j: int|
                    best < j < i ==> !text_lt(#[trigger] keys@[j]@, keys@[best as int]@),
            decreases rem.len() - i,
        {
            if text_less(&keys[i], &keys[best]) {
                proof {
                    assert forall|j: int| 0 <= j < i implies text_lt(
                        keys@[i as int]@,
                        #[trigger] keys@[j]@,
                    ) by {
                        if j < best {
                            lemma_text_lt_transitive(
                                keys@[i as int]@,
                                keys@[best as int]@,
                                keys@[j]@,
                            );
                        } else if j > best {
                            if keys@[j]@ != keys@[best as int]@ {
                                lemma_text_lt_total(keys@[j]@, keys@[best as int]@);
                                lemma_text_lt_transitive(
                                    keys@[i as int]@,
                                    keys@[best as int]@,
                                    keys@[j]@,
                                );
                            }
                        }
                    }
                }
                best = i;
            }
            i = i + 1;
        }
        let ghost m = best as int;
        let ghost pick = ridx[m];
        proof {
            assert forall|k: int| 0 <= k < ridx.len() && k != m implies orders_before(
                inp[pick],
                pick,
                inp[ridx[k]],
                #[trigger] ridx[k],
            ) by {
                if k < m {
                    assert(text_lt(keys@[m]@, keys@[k]@));
                } else {
                    assert(!text_lt(keys@[k]@, keys@[m]@));
                    if keys@[k]@ != keys@[m]@ {
                        lemma_text_lt_total(keys@[k]@, keys@[m]@);
                    }
                    assert(ridx[m] < ridx[k]);
                }
            }
        }
        let row = rem.remove(best);
        let _k = keys.remove(best);
        out.push(row);
        proof {
            assert forall|j: int| 0 <= j < perm.len() implies perm[j] != pick && orders_before(
                inp[perm[j]],
                #[trigger] perm[j],
                inp[pick],
                pick,
            ) by {
                assert(0 <= m < ridx.len());
                assert(perm[j] != ridx[m]);
            }
            let old_ridx = ridx;
            let old_perm = perm;
            perm = perm.push(pick);
            ridx = ridx.remove(m);
            assert forall|j: int| 0 <= j < ridx.len() implies (j < m ==> #[trigger] ridx[j]
                == old_ridx[j]) && (j >= m ==> ridx[j] == old_ridx[j + 1]) by {}
            assert forall|j: int, k: int|
                0 <= j < perm.len() && 0 <= k < ridx.len() implies perm[j] != ridx[k]
                && orders_before(
                inp[perm[j]],
                #[trigger] perm[j],
                inp[ridx[k]],
                #[trigger] ridx[k],
            ) by {
                let kk = if k < m {
                    k
                } else {
                    k + 1
                };
                assert(ridx[k] == old_ridx[kk]);
                if j < old_perm.len() {
                    assert(perm[j] == old_perm[j]);
                } else {
                    assert(kk != m);
                    assert(old_ridx[m] != old_ridx[kk]);
                }
            }
            assert forall|j: int, k: int|
                0 <= j < k < perm.len() implies perm[j] != perm[k] && orders_before(
                inp[perm[j]],
                #[trigger] perm[j],
                inp[perm[k]],
                #[trigger] perm[k],
            ) by {
                if k < old_perm.len() {
                    assert(perm[j] == old_perm[j] && perm[k] == old_perm[k]);
                } else {
                    assert(perm[j] == old_perm[j]);
                }
            }
            assert forall|j: int, k: int| 0 <= j < k < ridx.len() implies #[trigger] ridx[j]
                < #[trigger] ridx[k] by {
                let jj = if j < m {
                    j
                } else {
                    j + 1
                };
                let kk = if k < m {
                    k
                } else {
                    k + 1
                };
                assert(ridx[j] == old_ridx[jj]);
                assert(ridx[k] == old_ridx[kk]);
            }
            assert forall|j: int| 0 <= j < rem.len() implies 0 <= #[trigger] ridx[j] < n
                && rem@[j]@ == inp[ridx[j]] && keys@[j]@ == sort_key(inp[ridx[j]]) by {
                let jj = if j < m {
                    j
                } else {
                    j + 1
                };
                assert(ridx[j] == old_ridx[jj]);
            }
            assert forall|j: int| 0 <= j < perm.len() implies 0 <= #[trigger] perm[j] < n
                && out@[j]@ == inp[perm[j]] by {
                if j < old_perm.len() {
                    assert(perm[j] == old_perm[j]);
                }
            }
        }
    }
    proof {
        assert(views(out@).len() == n);
        assert forall|j: int| 0 <= j < perm.len() implies 0 <= #[trigger] perm[j] < inp.len()
            && views(out@)[j] == inp[perm[j]] by {}
        assert(is_sort_permutation(views(out@), inp, perm));
    }
    out
}

// ---------------------------------------------------------------------------
// Listing a directory
// ---------------------------------------------------------------------------

/// A directory entry as the caller reads it: its name, its path, whether it
/// is a directory, and its size in bytes (0 where it cannot be read).
#[derive(Debug)]
pub struct DirEntryInfo {
    pub name: String,
    pub path: String,
    pub is_dir: bool,
    pub size: u64,
}

/// Whether a name is hidden: it starts with `'.'`.
pub open spec fn is_hidden(name: Seq<char>) -> bool {
    name.len() > 0 && name[0] == '.'
}

/// The directory rows of the entries, in the order read: the visible
/// directories.
pub open spec fn dir_rows_of(es: Seq<DirEntryInfo>) -> Seq<RowView>
    decreases es.len(),
{
    if es.len() == 0 {
        seq![]
    } else {
        let e = es.last();
        let rest = dir_rows_of(es.drop_last());
        if !is_hidden(e.name@) && e.is_dir {
            rest.push(RowView::Dir { name: e.name@, path: e.path@ })
        } else {
            rest
        }
    }
}

/// The file rows of the entries, in the order read: the visible entries
/// that are not directories and whose paths name audio files.
pub open spec fn file_rows_of(es: Seq<DirEntryInfo>) -> Seq<RowView>
    decreases es.len(),
{
    if es.len() == 0 {
        seq![]
    } else {
        let e = es.last();
        let rest = file_rows_of(es.drop_last());
        if !is_hidden(e.name@) && !e.is_dir && is_audio_path_spec(e.path@) {
            rest.push(RowView::File { name: e.name@, path: e.path@, size: e.size })
        } else {
            rest
        }
    }
}

/// `out` lists the entries as the browser shows them: the parent directory
/// first where there is one, then the directories, then the audio files,
/// each group sorted stably by lower-cased name.
pub open spec fn is_listing(has_parent: bool, es: Seq<DirEntryInfo>, out: Seq<RowView>) -> bool {
    let h: int = if has_parent {
        1
    } else {
        0
    };
    let dl = dir_rows_of(es).len() as int;
    &&& out.len() == h + dl + file_rows_of(es).len()
    &&& has_parent ==> out[0] == RowView::Parent
    &&& is_stable_sort(out.subrange(h, h + dl), dir_rows_of(es))
    &&& is_stable_sort(out.subrange(h + dl, out.len() as int), file_rows_of(es))
}

/// The rows of a directory listing; `has_parent` tells whether the
/// directory has a parent to go up to.
pub fn list_rows(has_parent: bool, entries: &Vec<DirEntryInfo>) -> (r: Vec<Row>)
    ensures
        is_listing(has_parent, entries@, views(r@)),
{
    let mut dirs: Vec<Row> = Vec::new();
    let mut files: Vec<Row> = Vec::new();
    for i in 0..entries.len()
        invariant
            views(dirs@) == dir_rows_of(entries@.take(i as int)),
            views(files@) == file_rows_of(entries@.take(i as int)),
    {
        let e = &entries[i];
        assert(entries@.take(i + 1).drop_last() == entries@.take(i as int));
        assert(entries@.take(i + 1).last() == *e);
        let name_chars = chars_of(e.name.as_str());
        let hidden = name_chars.len() > 0 && name_chars[0] == '.';
        if !hidden {
            if e.is_dir {
                dirs.push(Row::Dir { name: e.name.clone(), path: e.path.clone() });
                assert(views(dirs@) == views(dirs@).drop_last().push(dirs@.last()@));
            } else if is_audio_path(e.path.as_str()) {
                files.push(Row::File { name: e.name.clone(), path: e.path.clone(), size: e.size });
                assert(views(files@) == views(files@).drop_last().push(files@.last()@));
            }
        }
    }
    assert(entries@.take(entries.len() as int) == entries@);
    let mut sorted_dirs = sort_rows(dirs);
    let mut sorted_files = sort_rows(files);
    let mut rows: Vec<Row> = Vec::new();
    if has_parent {
        rows.push(Row::Parent);
    }
    let ghost h = rows@.len();
    let ghost d = views(sorted_dirs@);
    let ghost f = views(sorted_files@);
    rows.append(&mut sorted_dirs);
    rows.append(&mut sorted_files);
    assert(views(rows@).subrange(h as int, (h + d.len()) as int) == d);
    assert(views(rows@).subrange((h + d.len()) as int, views(rows@).len() as int) == f);
    rows
}

} // verus!
