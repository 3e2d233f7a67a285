//! The storage report: capacity of the home volume, read from the disk-free
//! tool's table, and the per-cache breakdown of sizes.

use crate::engine::capped;
use crate::text::{
    chars_of, has_prefix, lines, split_lines, split_words, starts_with, string_views, views, words,
};
use crate::units::{token_bytes, token_size};
use vstd::multiset::Multiset;
use vstd::prelude::*;

verus! {

/// Why the disk-free table could not be read.
#[derive(Debug, Clone, Copy, PartialEq, Eq, Structural)]
pub enum DfParseError {
    /// Fewer than two lines: no data line after the header.
    MissingDataLine,
    /// The data line has fewer than four columns.
    MissingColumns,
    /// The size, used or available column is not a size token.
    InvalidSize,
}

/// Total, used and available bytes from the first data line of the
/// disk-free table (columns two to four).
pub open spec fn df_figures(output: Seq<char>) -> Result<(u64, u64, u64), DfParseError> {
    let ls = lines(output);
    if ls.len() < 2 {
        Err(DfParseError::MissingDataLine)
    } else {
        let w = words(ls[1]);
        if w.len() < 4 {
            Err(DfParseError::MissingColumns)
        } else {
            match (token_bytes(w[1]), token_bytes(w[2]), token_bytes(w[3])) {
                (Some(t), Some(u), Some(a)) => Ok((t as u64, u as u64, a as u64)),
                _ => Err(DfParseError::InvalidSize),
            }
        }
    }
}

/// Reads the disk-free table for one volume into (total, used, available) bytes.
pub fn parse_df_output(output: &str) -> (r: Result<(u64, u64, u64), DfParseError>)
    ensures
        r == df_figures(output@),
{
    let ls = split_lines(&chars_of(output));
    if ls.len() < 2 {
        return Err(DfParseError::MissingDataLine);
    }
    assert(views(ls@)[1] == ls@[1]@);
    let w = split_words(&ls[1]);
    if w.len() < 4 {
        return Err(DfParseError::MissingColumns);
    }
    assert(views(w@)[1] == w@[1]@);
    assert(views(w@)[2] == w@[2]@);
    assert(views(w@)[3] == w@[3]@);
    let total = token_size(&w[1]);
    let used = token_size(&w[2]);
    let available = token_size(&w[3]);
    match (total, used, available) {
        (Some(t), Some(u), Some(a)) => Ok((t, u, a)),
        _ => Err(DfParseError::InvalidSize),
    }
}


/// Subdirectories of the nested cache root below this size are left out of
/// the breakdown; the listing offered for cleanup holds only entries above it.
pub const MATERIAL_BYTES: u64 = 1048576;

/// A directory under the home directory whose size the scan reports.
#[derive(Debug)]
pub struct ScanRoot {
    pub relative_path: String,
    /// The umbrella cache root: reported per immediate subdirectory.
    pub nested: bool,
}

/// `dir/name`.
pub open spec fn join(dir: Seq<char>, name: Seq<char>) -> Seq<char> {
    dir + "/"@ + name
}

/// The label of a subdirectory of the nested cache root.
pub open spec fn subdir_label(name: Seq<char>) -> Seq<char> {
    "Caches/"@ + name
}

/// The directory that a breakdown label stands for: a label under the nested
/// root lies under `home/Library`; any other label lies directly under `home`.
pub open spec fn label_path(label: Seq<char>, home: Seq<char>) -> Seq<char> {
    if has_prefix(label, "Caches/"@) {
        join(join(home, "Library"@), label)
    } else {
        join(home, label)
    }
}

/// The scan roots as plain values: the path under the home directory, and
/// whether it is the nested root.
pub open spec fn scan_table() -> Seq<(Seq<char>, bool)> {
    seq![
        ("Library/Caches"@, true),
        (".cache"@, false),
        ("Downloads"@, false),
        (".npm"@, false),
        (".cargo"@, false),
        (".gradle"@, false),
        ("node_modules"@, false),
    ]
}

/// The directories the scan measures, relative to the home directory: the
/// nested root first, then roots whose labels never fall under `Caches/`.
pub fn scan_roots() -> (r: Vec<ScanRoot>)
    ensures
        r@.map_values(|s: ScanRoot| (s.relative_path@, s.nested)) == scan_table(),
        forall|i: int|
            1 <= i < r@.len() ==> !has_prefix(#[trigger] r@[i].relative_path@, "Caches/"@),
{
    proof {
        reveal_strlit("Caches/");
        reveal_strlit(".cache");
        reveal_strlit("Downloads");
        reveal_strlit(".npm");
        reveal_strlit(".cargo");
        reveal_strlit(".gradle");
        reveal_strlit("node_modules");
    }
    let mut r: Vec<ScanRoot> = Vec::new();
    r.push(ScanRoot { relative_path: "Library/Caches".to_owned(), nested: true });
    r.push(ScanRoot { relative_path: ".cache".to_owned(), nested: false });
    r.push(ScanRoot { relative_path: "Downloads".to_owned(), nested: false });
    r.push(ScanRoot { relative_path: ".npm".to_owned(), nested: false });
    r.push(ScanRoot { relative_path: ".cargo".to_owned(), nested: false });
    r.push(ScanRoot { relative_path: ".gradle".to_owned(), nested: false });
    r.push(ScanRoot { relative_path: "node_modules".to_owned(), nested: false });
    assert(!has_prefix(r@[1].relative_path@, "Caches/"@)) by {
        assert(r@[1].relative_path@[0] != "Caches/"@[0]);
    }
    assert(!has_prefix(r@[2].relative_path@, "Caches/"@)) by {
        assert(r@[2].relative_path@[0] != "Caches/"@[0]);
    }
    assert(!has_prefix(r@[3].relative_path@, "Caches/"@)) by {
        assert(r@[3].relative_path@[0] != "Caches/"@[0]);
    }
    assert(!has_prefix(r@[4].relative_path@, "Caches/"@)) by {
        assert(r@[4].relative_path@[0] != "Caches/"@[0]);
    }
    assert(!has_prefix(r@[5].relative_path@, "Caches/"@)) by {
        assert(r@[5].relative_path@[0] != "Caches/"@[0]);
    }
    assert(!has_prefix(r@[6].relative_path@, "Caches/"@)) by {
        assert(r@[6].relative_path@[0] != "Caches/"@[0]);
    }
    assert(r@.map_values(|s: ScanRoot| (s.relative_path@, s.nested)) =~= scan_table());
    r
}

/// `dir/name`.
pub fn join_path(dir: &str, name: &str) -> (r: String)
    ensures
        r@ == join(dir@, name@),
{
    let mut s = dir.to_owned();
    s.append("/");
    s.append(name);
    s
}

/// The label under which a subdirectory of the nested root is reported.
pub fn subdir_label_of(name: &str) -> (r: String)
    ensures
        r@ == subdir_label(name@),
{
    let mut s = "Caches/".to_owned();
    s.append(name);
    s
}

/// The directory that a breakdown label stands for, for the home directory `home`.
pub fn path_for_label(label: &str, home: &str) -> (r: String)
    ensures
        r@ == label_path(label@, home@),
{
    if starts_with(&chars_of(label), "Caches/") {
        let lib = join_path(home, "Library");
        join_path(lib.as_str(), label)
    } else {
        join_path(home, label)
    }
}

/// Resolving a label is the exact inverse of producing it: the label of a
/// subdirectory of the nested root resolves to that subdirectory, and the
/// label of any other scan root (its relative path, never under `Caches/`)
/// resolves to that root.
pub proof fn lemma_labels_resolve_to_scanned_paths(
    home: Seq<char>,
    name: Seq<char>,
    relative: Seq<char>,
)
    ensures
        label_path(subdir_label(name), home) == join(join(home, "Library/Caches"@), name),
        !has_prefix(relative, "Caches/"@) ==> label_path(relative, home) == join(home, relative),
{
    reveal_strlit("Caches/");
    reveal_strlit("Library/Caches");
    reveal_strlit("Library");
    reveal_strlit("/");
    let label = subdir_label(name);
    assert(label.take(7) =~= "Caches/"@);
    assert(join(join(home, "Library"@), label) =~= join(join(home, "Library/Caches"@), name));
}

/// The measured size of one subdirectory of the nested root.
#[derive(Debug)]
pub struct SubdirSize {
    pub name: String,
    pub bytes: u64,
}

/// The measured size of one scan root (zero when it does not exist), and of
/// its immediate subdirectories when it is the nested root.
#[derive(Debug)]
pub struct RootSize {
    pub relative_path: String,
    pub nested: bool,
    pub bytes: u64,
    pub subdirs: Vec<SubdirSize>,
}

/// One line of the breakdown: a label and its size in bytes.
#[derive(Debug)]
pub struct BreakdownEntry {
    pub label: String,
    pub bytes: u64,
}

pub open spec fn entry_views(v: Seq<BreakdownEntry>) -> Seq<(Seq<char>, u64)> {
    v.map_values(|e: BreakdownEntry| (e.label@, e.bytes))
}

/// The material subdirectories, labelled, in order.
pub open spec fn subdir_entries(ss: Seq<SubdirSize>) -> Seq<(Seq<char>, u64)>
    decreases ss.len(),
{
    if ss.len() == 0 {
        Seq::empty()
    } else if ss.last().bytes >= MATERIAL_BYTES {
        subdir_entries(ss.drop_last()).push((subdir_label(ss.last().name@), ss.last().bytes))
    } else {
        subdir_entries(ss.drop_last())
    }
}

/// What one scan root adds to the breakdown: nothing when empty or absent;
/// its material subdirectories when nested; else itself under its path.
pub open spec fn root_entries(r: RootSize) -> Seq<(Seq<char>, u64)> {
    if r.bytes == 0 {
        Seq::empty()
    } else if r.nested {
        subdir_entries(r.subdirs@)
    } else {
        seq![(r.relative_path@, r.bytes)]
    }
}

pub open spec fn breakdown_of(rs: Seq<RootSize>) -> Seq<(Seq<char>, u64)>
    decreases rs.len(),
{
    if rs.len() == 0 {
        Seq::empty()
    } else {
        breakdown_of(rs.drop_last()) + root_entries(rs.last())
    }
}

/// No label occurs twice.
pub open spec fn distinct_labels(s: Seq<(Seq<char>, u64)>) -> bool {
    forall|i: int, j: int| 0 <= i < j < s.len() ==> #[trigger] s[i].0 != #[trigger] s[j].0
}

/// What a scan can hand over: roots with distinct paths, at most one of them
/// nested, the others never under `Caches/`, and subdirectories of the
/// nested root with distinct names.
pub open spec fn scan_well_formed(rs: Seq<RootSize>) -> bool {
    &&& forall|i: int, j: int|
        0 <= i < j < rs.len() ==> #[trigger] rs[i].relative_path@ != #[trigger] rs[j].relative_path@
    &&& forall|i: int, j: int|
        0 <= i < j < rs.len() ==> !(#[trigger] rs[i].nested && #[trigger] rs[j].nested)
    &&& forall|i: int|
        0 <= i < rs.len() && !(#[trigger] rs[i]).nested ==> !has_prefix(
            rs[i].relative_path@,
            "Caches/"@,
        )
    &&& forall|i: int, a: int, b: int|
        0 <= i < rs.len() && rs[i].nested && 0 <= a < b < rs[i].subdirs@.len() ==> #[trigger] rs[i].subdirs@[a].name@
            != #[trigger] rs[i].subdirs@[b].name@
}

pub open spec fn subdir_origin(ss: Seq<SubdirSize>, l: Seq<char>) -> bool {
    exists|m: int| 0 <= m < ss.len() && l == subdir_label(#[trigger] ss[m].name@)
}

pub open spec fn root_origin(rs: Seq<RootSize>, l: Seq<char>) -> bool {
    exists|k: int|
        0 <= k < rs.len() && ((!(#[trigger] rs[k]).nested && l == rs[k].relative_path@) || (
        rs[k].nested && subdir_origin(rs[k].subdirs@, l)))
}

proof fn lemma_subdir_label_shape(a: Seq<char>, b: Seq<char>)
    ensures
        has_prefix(subdir_label(a), "Caches/"@),
        subdir_label(a) == subdir_label(b) ==> a == b,
{
    let p = "Caches/"@;
    assert((p + a).take(p.len() as int) =~= p);
    assert((p + a).skip(p.len() as int) =~= a);
    assert((p + b).skip(p.len() as int) =~= b);
}

proof fn lemma_subdir_entries_origin(ss: Seq<SubdirSize>)
    ensures
        forall|i: int|
            0 <= i < subdir_entries(ss).len() ==> subdir_origin(ss, #[trigger] subdir_entries(ss)[i].0),
    decreases ss.len(),
{
    if ss.len() > 0 {
        let init = ss.drop_last();
        lemma_subdir_entries_origin(init);
        assert forall|i: int| 0 <= i < subdir_entries(ss).len() implies subdir_origin(
            ss,
            #[trigger] subdir_entries(ss)[i].0,
        ) by {
            let l = subdir_entries(ss)[i].0;
            if i < subdir_entries(init).len() {
                assert(subdir_entries(ss)[i] == subdir_entries(init)[i]);
                assert(subdir_origin(init, l));
                let m = choose|m: int| 0 <= m < init.len() && l == subdir_label(#[trigger] init[m].name@);
                assert(ss[m] == init[m]);
            } else {
                assert(ss[ss.len() - 1] == ss.last());
            }
        }
    }
}

proof fn lemma_subdir_entries_distinct(ss: Seq<SubdirSize>)
    requires
        forall|a: int, b: int| 0 <= a < b < ss.len() ==> #[trigger] ss[a].name@ != #[trigger] ss[b].name@,
    ensures
        distinct_labels(subdir_entries(ss)),
    decreases ss.len(),
{
    if ss.len() > 0 {
        let init = ss.drop_last();
        assert forall|a: int, b: int| 0 <= a < b < init.len() implies #[trigger] init[a].name@
            != #[trigger] init[b].name@ by {
            assert(init[a] == ss[a] && init[b] == ss[b]);
        }
        lemma_subdir_entries_distinct(init);
        lemma_subdir_entries_origin(init);
        let e = subdir_entries(ss);
        let ei = subdir_entries(init);
        assert forall|i: int, j: int| 0 <= i < j < e.len() implies #[trigger] e[i].0 != #[trigger] e[j].0 by {
            if j >= ei.len() {
                assert(e[i] == ei[i]);
                assert(subdir_origin(init, ei[i].0));
                let m = choose|m: int| 0 <= m < init.len() && ei[i].0 == subdir_label(#[trigger] init[m].name@);
                assert(init[m] == ss[m]);
                assert(ss[m].name@ != ss[ss.len() - 1].name@);
                lemma_subdir_label_shape(init[m].name@, ss.last().name@);
            } else {
                assert(e[i] == ei[i] && e[j] == ei[j]);
            }
        }
    }
}

proof fn lemma_breakdown_origin(rs: Seq<RootSize>)
    ensures
        forall|i: int|
            0 <= i < breakdown_of(rs).len() ==> root_origin(rs, #[trigger] breakdown_of(rs)[i].0),
    decreases rs.len(),
{
    if rs.len() > 0 {
        let init = rs.drop_last();
        let last = rs.last();
        lemma_breakdown_origin(init);
        lemma_subdir_entries_origin(last.subdirs@);
        let b = breakdown_of(rs);
        let bi = breakdown_of(init);
        assert forall|i: int| 0 <= i < b.len() implies root_origin(rs, #[trigger] b[i].0) by {
            if i < bi.len() {
                assert(b[i] == bi[i]);
                assert(root_origin(init, bi[i].0));
                let k = choose|k: int|
                    0 <= k < init.len() && ((!(#[trigger] init[k]).nested && bi[i].0
                        == init[k].relative_path@) || (init[k].nested && subdir_origin(
                        init[k].subdirs@,
                        bi[i].0,
                    )));
                assert(rs[k] == init[k]);
            } else {
                let r = root_entries(last);
                assert(b[i] == r[i - bi.len()]);
                assert(rs[rs.len() - 1] == last);
                if !last.nested {
                    assert(r[i - bi.len()].0 == last.relative_path@);
                } else {
                    assert(subdir_origin(last.subdirs@, r[i - bi.len()].0));
                }
            }
        }
    }
}

/// The breakdown is a mapping: of a well-formed scan, no label occurs twice.
pub proof fn lemma_breakdown_labels_unique(rs: Seq<RootSize>)
    requires
        scan_well_formed(rs),
    ensures
        distinct_labels(breakdown_of(rs)),
    decreases rs.len(),
{
    if rs.len() > 0 {
        let init = rs.drop_last();
        let last = rs.last();
        let n = rs.len() - 1;
        assert(rs[n] == last);
        assert(scan_well_formed(init)) by {
            assert forall|i: int| 0 <= i < init.len() implies #[trigger] init[i] == rs[i] by {}
        }
        lemma_breakdown_labels_unique(init);
        lemma_breakdown_origin(init);
        lemma_subdir_entries_origin(last.subdirs@);
        if last.nested {
            lemma_subdir_entries_distinct(last.subdirs@);
        }
        let b = breakdown_of(rs);
        let bi = breakdown_of(init);
        let r = root_entries(last);
        assert(distinct_labels(r));
        assert forall|i: int, j: int| 0 <= i < j < b.len() implies #[trigger] b[i].0 != #[trigger] b[j].0 by {
            if j < bi.len() {
                assert(b[i] == bi[i] && b[j] == bi[j]);
            } else if i >= bi.len() {
                assert(b[i] == r[i - bi.len()] && b[j] == r[j - bi.len()]);
            } else {
                assert(b[i] == bi[i] && b[j] == r[j - bi.len()]);
                let li = bi[i].0;
                let lj = r[j - bi.len()].0;
                assert(root_origin(init, li));
                let k = choose|k: int|
                    0 <= k < init.len() && ((!(#[trigger] init[k]).nested && li
                        == init[k].relative_path@) || (init[k].nested && subdir_origin(
                        init[k].subdirs@,
                        li,
                    )));
                assert(init[k] == rs[k]);
                if init[k].nested {
                    let m = choose|m: int|
                        0 <= m < init[k].subdirs@.len() && li == subdir_label(
                            #[trigger] init[k].subdirs@[m].name@,
                        );
                    lemma_subdir_label_shape(init[k].subdirs@[m].name@, init[k].subdirs@[m].name@);
                    assert(!last.nested);
                    assert(lj == last.relative_path@);
                } else {
                    if last.nested {
                        assert(subdir_origin(last.subdirs@, lj));
                        let m = choose|m: int|
                            0 <= m < last.subdirs@.len() && lj == subdir_label(
                                #[trigger] last.subdirs@[m].name@,
                            );
                        lemma_subdir_label_shape(last.subdirs@[m].name@, last.subdirs@[m].name@);
                    } else {
                        assert(lj == last.relative_path@);
                    }
                }
            }
        }
    }
}

fn push_entry(out: &mut Vec<BreakdownEntry>, label: String, bytes: u64)
    ensures
        entry_views(final(out)@) == entry_views(old(out)@).push((label@, bytes)),
{
    out.push(BreakdownEntry { label, bytes });
    assert(entry_views(final(out)@) =~= entry_views(old(out)@).push((label@, bytes)));
}

/// The breakdown of the scan: each scan root in order, the nested one
/// expanded into its material subdirectories.
pub fn build_breakdown(roots: &Vec<RootSize>) -> (r: Vec<BreakdownEntry>)
    ensures
        entry_views(r@) == breakdown_of(roots@),
{
    let mut out: Vec<BreakdownEntry> = Vec::new();
    let mut i: usize = 0;
    while i < roots.len()
        invariant
            i <= roots.len(),
            entry_views(out@) == breakdown_of(roots@.take(i as int)),
        decreases roots.len() - i,
    {
        assert(roots@.take(i + 1).drop_last() =~= roots@.take(i as int));
        let root = &roots[i];
        let ghost before = entry_views(out@);
        if root.bytes == 0 {
            assert(before + root_entries(*root) =~= before);
        } else if root.nested {
            let mut j: usize = 0;
            while j < root.subdirs.len()
                invariant
                    j <= root.subdirs.len(),
                    root.bytes != 0,
                    root.nested,
                    entry_views(out@) == before + subdir_entries(root.subdirs@.take(j as int)),
                decreases root.subdirs.len() - j,
            {
                assert(root.subdirs@.take(j + 1).drop_last() =~= root.subdirs@.take(j as int));
                let sub = &root.subdirs[j];
                if sub.bytes >= MATERIAL_BYTES {
                    let label = subdir_label_of(sub.name.as_str());
                    push_entry(&mut out, label, sub.bytes);
                    assert(entry_views(out@) =~= before + subdir_entries(
                        root.subdirs@.take(j + 1),
                    ));
                }
                j = j + 1;
            }
            assert(root.subdirs@.take(root.subdirs.len() as int) =~= root.subdirs@);
        } else {
            let label = root.relative_path.clone();
            push_entry(&mut out, label, root.bytes);
            assert(entry_views(out@) =~= before + root_entries(*root));
        }
        i = i + 1;
    }
    assert(roots@.take(roots.len() as int) =~= roots@);
    out
}


/// Largest first.
pub open spec fn descending(s: Seq<(Seq<char>, u64)>) -> bool {
    forall|i: int, j: int| 0 <= i < j < s.len() ==> #[trigger] s[i].1 >= #[trigger] s[j].1
}

/// The breakdown ordered by size, largest first: the same entries, reordered.
pub fn sort_by_size(entries: Vec<BreakdownEntry>) -> (r: Vec<BreakdownEntry>)
    ensures
        entry_views(r@).to_multiset() == entry_views(entries@).to_multiset(),
        descending(entry_views(r@)),
{
    broadcast use vstd::multiset::group_multiset_axioms;
    broadcast use vstd::seq_lib::group_to_multiset_ensures;
    broadcast use vstd::multiset::lemma_multiset_empty_len;

    let ghost all = entry_views(entries@).to_multiset();
    let mut rest = entries;
    let mut out: Vec<BreakdownEntry> = Vec::new();
    assert(entry_views(out@).to_multiset() =~= Multiset::empty());
    while rest.len() > 0
        invariant
            entry_views(rest@).to_multiset().add(entry_views(out@).to_multiset()) == all,
            descending(entry_views(out@)),
        decreases rest.len(),
    {
        let ghost old_rest = rest@;
        let e = match rest.pop() {
            Some(e) => e,
            None => {
                return out;
            },
        };
        proof {
            assert(entry_views(old_rest) =~= entry_views(rest@).push((e.label@, e.bytes)));
            vstd::seq_lib::to_multiset_build(entry_views(rest@), (e.label@, e.bytes));
        }
        let mut p: usize = 0;
        while p < out.len() && out[p].bytes >= e.bytes
            invariant
                p <= out.len(),
                forall|k: int| 0 <= k < p ==> #[trigger] out@[k].bytes >= e.bytes,
            decreases out.len() - p,
        {
            p = p + 1;
        }
        let ghost old_out = out@;
        let ghost v = (e.label@, e.bytes);
        proof {
            assert(descending(entry_views(old_out)));
            assert forall|k: int| p <= k < old_out.len() implies #[trigger] old_out[k].bytes
                < v.1 by {
                assert(entry_views(old_out)[p as int].1 >= entry_views(old_out)[k].1 || k == p);
            }
        }
        out.insert(p, e);
        proof {
            assert(entry_views(out@) =~= entry_views(old_out).insert(p as int, v));
            vstd::seq_lib::to_multiset_insert(entry_views(old_out), p as int, v);
            let ov = entry_views(out@);
            assert forall|i: int, j: int| 0 <= i < j < ov.len() implies #[trigger] ov[i].1
                >= #[trigger] ov[j].1 by {
                let ev = entry_views(old_out);
                if j < p {
                } else if j == p {
                    assert(ov[i] == ev[i]);
                } else if i < p {
                    assert(ov[j] == ev[j - 1]);
                    assert(ev[i].1 >= v.1);
                } else if i == p {
                    assert(ov[j] == ev[j - 1]);
                } else {
                    assert(ov[i] == ev[i - 1]);
                    assert(ov[j] == ev[j - 1]);
                }
            }
            assert(entry_views(rest@).to_multiset().add(entry_views(out@).to_multiset()) =~= all);
        }
    }
    assert(entry_views(rest@).to_multiset() =~= Multiset::empty());
    out
}

/// Worth offering for cleanup: larger than 1 MiB.
pub open spec fn is_material(e: (Seq<char>, u64)) -> bool {
    e.1 > MATERIAL_BYTES
}

/// The entries larger than 1 MiB, in their order.
pub fn material_entries(entries: &Vec<BreakdownEntry>) -> (r: Vec<BreakdownEntry>)
    ensures
        entry_views(r@) == entry_views(entries@).filter(|e: (Seq<char>, u64)| is_material(e)),
{
    let mut out: Vec<BreakdownEntry> = Vec::new();
    let mut i: usize = 0;
    while i < entries.len()
        invariant
            i <= entries.len(),
            entry_views(out@) == entry_views(entries@.take(i as int)).filter(
                |e: (Seq<char>, u64)| is_material(e),
            ),
        decreases entries.len() - i,
    {
        let ghost pre = entry_views(entries@.take(i as int));
        let ghost v = (entries@[i as int].label@, entries@[i as int].bytes);
        assert(entry_views(entries@.take(i + 1)) =~= pre.push(v));
        proof {
            pre.lemma_filter_push(v, |e: (Seq<char>, u64)| is_material(e));
        }
        if entries[i].bytes > MATERIAL_BYTES {
            let label = entries[i].label.clone();
            push_entry(&mut out, label, entries[i].bytes);
        }
        i = i + 1;
    }
    assert(entries@.take(entries.len() as int) =~= entries@);
    out
}


/// A snapshot of the home volume's capacity and of the cache sizes.
#[derive(Debug)]
pub struct StorageInfo {
    pub total: u64,
    pub used: u64,
    pub available: u64,
    /// In scan order; see `sort_by_size` for presentation. Of a
    /// well-formed scan no label occurs twice.
    pub cache_breakdown: Vec<BreakdownEntry>,
}

/// The storage snapshot from the disk-free table of the home volume and the
/// measured scan roots; fails only when the table cannot be read.
pub fn get_storage_info(df_output: &str, roots: &Vec<RootSize>) -> (r: Result<
    StorageInfo,
    DfParseError,
>)
    ensures
        match df_figures(df_output@) {
            Ok((t, u, a)) => r is Ok && r->Ok_0.total == t && r->Ok_0.used == u
                && r->Ok_0.available == a && entry_views(r->Ok_0.cache_breakdown@)
                == breakdown_of(roots@),
            Err(e) => r == Err::<StorageInfo, DfParseError>(e),
        },
        r is Ok && scan_well_formed(roots@) ==> distinct_labels(
            entry_views(r->Ok_0.cache_breakdown@),
        ),
{
    match parse_df_output(df_output) {
        Ok((total, used, available)) => {
            let cache_breakdown = build_breakdown(roots);
            proof {
                if scan_well_formed(roots@) {
                    lemma_breakdown_labels_unique(roots@);
                }
            }
            Ok(StorageInfo { total, used, available, cache_breakdown })
        },
        Err(e) => Err(e),
    }
}

/// `part` as a whole percentage of `whole`, rounded down; zero when `whole` is zero.
pub fn percent_of(part: u64, whole: u64) -> (r: u64)
    ensures
        whole == 0 ==> r == 0,
        whole > 0 ==> r == capped((part as nat * 100) / whole as nat),
{
    if whole == 0 {
        return 0;
    }
    assert((part as int) * 100 <= 18446744073709551615 * 100) by (nonlinear_arith)
        requires
            part <= 18446744073709551615,
    ;
    let q: u128 = (part as u128) * 100 / (whole as u128);
    if q > u64::MAX as u128 {
        u64::MAX
    } else {
        q as u64
    }
}

/// The size listed for `label`: that of its first entry, or zero when it is
/// not listed.
pub open spec fn label_bytes(es: Seq<(Seq<char>, u64)>, label: Seq<char>) -> u64
    decreases es.len(),
{
    if es.len() == 0 {
        0
    } else if es[0].0 == label {
        es[0].1
    } else {
        label_bytes(es.drop_first(), label)
    }
}

/// The size listed for `label` in the breakdown, zero when it is not listed.
pub fn size_of_label(entries: &Vec<BreakdownEntry>, label: &str) -> (r: u64)
    ensures
        r == label_bytes(entry_views(entries@), label@),
{
    let key = label.to_owned();
    let ghost ev = entry_views(entries@);
    let mut i: usize = 0;
    assert(ev.skip(0) =~= ev);
    while i < entries.len()
        invariant
            key@ == label@,
            ev == entry_views(entries@),
            i <= entries.len(),
            label_bytes(ev, label@) == label_bytes(ev.skip(i as int), label@),
        decreases entries.len() - i,
    {
        assert(ev.skip(i as int)[0] == ev[i as int]);
        if entries[i].label == key {
            return entries[i].bytes;
        }
        assert(ev.skip(i as int).drop_first() =~= ev.skip(i + 1));
        i = i + 1;
    }
    0
}

/// Adds `label` to the labels picked for cleanup unless it is there already;
/// tells whether it was added.
pub fn select_label(selected: &mut Vec<String>, label: &str) -> (r: bool)
    ensures
        r == !string_views(old(selected)@).contains(label@),
        r ==> string_views(final(selected)@) == string_views(old(selected)@).push(label@),
        !r ==> final(selected)@ == old(selected)@,
{
    let key = label.to_owned();
    let mut i: usize = 0;
    while i < selected.len()
        invariant
            key@ == label@,
            i <= selected.len(),
            forall|k: int| 0 <= k < i ==> #[trigger] selected@[k]@ != label@,
        decreases selected.len() - i,
    {
        if selected[i] == key {
            assert(string_views(selected@)[i as int] == label@);
            return false;
        }
        i = i + 1;
    }
    assert(!string_views(selected@).contains(label@)) by {
        if string_views(selected@).contains(label@) {
            let k = choose|k: int|
                0 <= k < string_views(selected@).len() && string_views(selected@)[k] == label@;
            assert(selected@[k]@ == label@);
        }
    }
    let ghost before = selected@;
    selected.push(key);
    assert(string_views(selected@) =~= string_views(before).push(label@));
    true
}

/// The sizes listed for the labels `ls`, added up.
pub open spec fn labels_bytes(es: Seq<(Seq<char>, u64)>, ls: Seq<Seq<char>>) -> nat
    decreases ls.len(),
{
    if ls.len() == 0 {
        0
    } else {
        labels_bytes(es, ls.drop_last()) + label_bytes(es, ls.last()) as nat
    }
}

/// The total size of the picked labels, as listed in the breakdown.
pub fn selected_bytes(entries: &Vec<BreakdownEntry>, selected: &Vec<String>) -> (r: u64)
    ensures
        r == capped(labels_bytes(entry_views(entries@), string_views(selected@))),
{
    let ghost ev = entry_views(entries@);
    let ghost sv = string_views(selected@);
    let mut acc: u64 = 0;
    let mut i: usize = 0;
    while i < selected.len()
        invariant
            ev == entry_views(entries@),
            sv == string_views(selected@),
            i <= selected.len(),
            acc == capped(labels_bytes(ev, sv.take(i as int))),
        decreases selected.len() - i,
    {
        assert(sv.take(i + 1).drop_last() =~= sv.take(i as int));
        assert(sv.take(i + 1).last() == selected@[i as int]@);
        let b = size_of_label(entries, selected[i].as_str());
        acc = acc.saturating_add(b);
        i = i + 1;
    }
    assert(sv.take(selected.len() as int) =~= sv);
    acc
}

} // verus!
