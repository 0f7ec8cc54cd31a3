use vstd::prelude::*;

use crate::text::{
    begins_with_dot, begins_with_dot_str, is_bundle_name, is_bundle_str, join_path,
    lemma_lex_le_total, lemma_lex_le_trans, lex_le, path_join, str_le, strip_bundle,
    strip_bundle_suffix,
};

verus! {

broadcast use vstd::seq::axiom_seq_subrange_decreases, vstd::std_specs::vec::axiom_vec_decreases_to_view;

/// One discovered application bundle: its display name (the entry name with
/// the bundle suffix stripped) and its absolute path.
#[derive(Debug, Clone, PartialEq)]
pub struct AppInfo {
    pub name: String,
    pub path: String,
}

pub ghost struct AppInfoS {
    pub name: Seq<char>,
    pub path: Seq<char>,
}

impl View for AppInfo {
    type V = AppInfoS;

    open spec fn view(&self) -> AppInfoS {
        AppInfoS { name: self.name@, path: self.path@ }
    }
}

pub open spec fn view_apps(s: Seq<AppInfo>) -> Seq<AppInfoS> {
    s.map_values(|a: AppInfo| a@)
}

proof fn lemma_view_apps_push(s: Seq<AppInfo>, a: AppInfo)
    ensures
        view_apps(s.push(a)) == view_apps(s).push(a@),
{
    assert(view_apps(s.push(a)) =~= view_apps(s).push(a@));
}

/// A directory entry as the filesystem walk hands it to the scanner: its
/// name and, for a readable directory, its children. A file, and a directory
/// that could not be read, both carry no children.
#[derive(Debug, PartialEq)]
pub enum FsNode {
    File,
    Dir(Vec<FsEntry>),
}

#[derive(Debug, PartialEq)]
pub struct FsEntry {
    pub name: String,
    pub node: FsNode,
}

/// One scan root: the directory's absolute path and its entries.
#[derive(Debug, PartialEq)]
pub struct FsRoot {
    pub path: String,
    pub entries: Vec<FsEntry>,
}

/// The record made for a bundle entry `name` found in directory `dir`.
pub open spec fn bundle_info(dir: Seq<char>, name: Seq<char>) -> AppInfoS {
    AppInfoS { name: strip_bundle(name), path: path_join(dir, name) }
}

/// The bundles among the immediate children of a directory at `dir`, in
/// entry order.
pub open spec fn immediate_bundles(dir: Seq<char>, children: Seq<FsEntry>) -> Seq<AppInfoS>
    decreases children.len(),
{
    if children.len() == 0 {
        Seq::empty()
    } else {
        immediate_bundles(dir, children.drop_last()) + if is_bundle_name(children.last().name@) {
            seq![bundle_info(dir, children.last().name@)]
        } else {
            Seq::empty()
        }
    }
}

/// What the scan records for a single entry of the directory at `dir`:
/// a bundle-named entry is recorded and never descended into; any other
/// non-hidden directory has its immediate children inspected, and is
/// recursed into only when none of them is a bundle.
pub open spec fn apps_of_entry(dir: Seq<char>, e: FsEntry) -> Seq<AppInfoS>
    decreases e,
{
    if is_bundle_name(e.name@) {
        seq![bundle_info(dir, e.name@)]
    } else {
        match e.node {
            FsNode::Dir(children) => {
                if begins_with_dot(e.name@) {
                    Seq::empty()
                } else {
                    let p = path_join(dir, e.name@);
                    let imm = immediate_bundles(p, children@);
                    if imm.len() > 0 {
                        imm
                    } else {
                        apps_in_entries(p, children@)
                    }
                }
            },
            FsNode::File => Seq::empty(),
        }
    }
}

/// What the scan records for the entries of the directory at `dir`, in
/// entry order.
pub open spec fn apps_in_entries(dir: Seq<char>, entries: Seq<FsEntry>) -> Seq<AppInfoS>
    decreases entries,
{
    if entries.len() == 0 {
        Seq::empty()
    } else {
        apps_in_entries(dir, entries.drop_last()) + apps_of_entry(dir, entries.last())
    }
}

/// Everything discovered under the given roots, root by root, in order.
pub open spec fn apps_in_roots(roots: Seq<FsRoot>) -> Seq<AppInfoS>
    decreases roots.len(),
{
    if roots.len() == 0 {
        Seq::empty()
    } else {
        apps_in_roots(roots.drop_last()) + apps_in_entries(
            roots.last().path@,
            roots.last().entries@,
        )
    }
}

/// Records the immediate bundle children of the directory at `dir`, and
/// reports whether there was any.
fn push_immediate_bundles(dir: &str, children: &Vec<FsEntry>, apps: &mut Vec<AppInfo>) -> (found:
    bool)
    ensures
        view_apps(final(apps)@) == view_apps(old(apps)@) + immediate_bundles(dir@, children@),
        found == (immediate_bundles(dir@, children@).len() > 0),
{
    let ghost apps0 = apps@;
    let mut found = false;
    let mut j: usize = 0;
    proof {
        assert(children@.subrange(0, 0) =~= Seq::<FsEntry>::empty());
        assert(view_apps(apps@) =~= view_apps(apps0) + immediate_bundles(
            dir@,
            children@.subrange(0, 0),
        ));
    }
    while j < children.len()
        invariant
            j <= children@.len(),
            view_apps(apps@) == view_apps(apps0) + immediate_bundles(
                dir@,
                children@.subrange(0, j as int),
            ),
            found == (immediate_bundles(dir@, children@.subrange(0, j as int)).len() > 0),
        decreases children@.len() - j,
    {
        let ghost pre = children@.subrange(0, j as int);
        let ghost post = children@.subrange(0, j + 1);
        proof {
            assert(post.drop_last() =~= pre);
            assert(post.last() == children@[j as int]);
        }
        let child = &children[j];
        if is_bundle_str(child.name.as_str()) {
            let info = AppInfo {
                name: strip_bundle_suffix(child.name.as_str()),
                path: join_path(dir, child.name.as_str()),
            };
            let ghost before = apps@;
            let ghost b = bundle_info(dir@, children@[j as int].name@);
            proof {
                assert(info@ == b);
            }
            apps.push(info);
            found = true;
            proof {
                lemma_view_apps_push(before, info);
                assert(immediate_bundles(dir@, post) == immediate_bundles(dir@, pre) + seq![b]);
                assert(view_apps(apps@) =~= view_apps(apps0) + immediate_bundles(dir@, post));
            }
        } else {
            proof {
                assert(immediate_bundles(dir@, post) =~= immediate_bundles(dir@, pre));
            }
        }
        j = j + 1;
    }
    proof {
        assert(children@.subrange(0, children@.len() as int) =~= children@);
    }
    found
}

/// Scans the entries of the directory at `dir`, appending every discovered
/// bundle, exactly as `apps_in_entries` describes.
pub fn scan_entries(dir: &str, entries: &Vec<FsEntry>, apps: &mut Vec<AppInfo>)
    ensures
        view_apps(final(apps)@) == view_apps(old(apps)@) + apps_in_entries(dir@, entries@),
    decreases entries@,
{
    let ghost apps0 = apps@;
    let mut i: usize = 0;
    proof {
        assert(entries@.subrange(0, 0) =~= Seq::<FsEntry>::empty());
        assert(view_apps(apps@) =~= view_apps(apps0) + apps_in_entries(
            dir@,
            entries@.subrange(0, 0),
        ));
    }
    while i < entries.len()
        invariant
            i <= entries@.len(),
            view_apps(apps@) == view_apps(apps0) + apps_in_entries(
                dir@,
                entries@.subrange(0, i as int),
            ),
        decreases entries@.len() - i,
    {
        let ghost pre = entries@.subrange(0, i as int);
        let ghost post = entries@.subrange(0, i + 1);
        proof {
            assert(post.drop_last() =~= pre);
            assert(post.last() == entries@[i as int]);
        }
        let e = &entries[i];
        if is_bundle_str(e.name.as_str()) {
            let info = AppInfo {
                name: strip_bundle_suffix(e.name.as_str()),
                path: join_path(dir, e.name.as_str()),
            };
            let ghost before = apps@;
            let ghost b = bundle_info(dir@, entries@[i as int].name@);
            proof {
                assert(info@ == b);
            }
            apps.push(info);
            proof {
                lemma_view_apps_push(before, info);
                assert(apps_of_entry(dir@, entries@[i as int]) =~= seq![b]);
                assert(apps_in_entries(dir@, post) == apps_in_entries(dir@, pre) + seq![b]);
                assert(view_apps(apps@) =~= view_apps(apps0) + apps_in_entries(dir@, post));
            }
        } else {
            match &e.node {
                FsNode::Dir(children) => {
                    if !begins_with_dot_str(e.name.as_str()) {
                        let ghost ei = entries@[i as int];
                        let ghost p = path_join(dir@, ei.name@);
                        let ghost imm = immediate_bundles(p, children@);
                        let ghost at_start = apps@;
                        let sub = join_path(dir, e.name.as_str());
                        let found = push_immediate_bundles(sub.as_str(), children, apps);
                        if !found {
                            let ghost mid = apps@;
                            proof {
                                assert(imm =~= Seq::<AppInfoS>::empty());
                                assert(view_apps(mid) =~= view_apps(at_start));
                                assert(decreases_to!(entries@ => entries@[i as int]));
                                assert(decreases_to!(entries@[i as int] => children@));
                            }
                            scan_entries(sub.as_str(), children, apps);
                            proof {
                                assert(apps_of_entry(dir@, ei) == apps_in_entries(p, children@));
                                assert(view_apps(apps@) == view_apps(at_start) + apps_of_entry(
                                    dir@,
                                    ei,
                                ));
                            }
                        } else {
                            proof {
                                assert(apps_of_entry(dir@, ei) == imm);
                                assert(view_apps(apps@) == view_apps(at_start) + apps_of_entry(
                                    dir@,
                                    ei,
                                ));
                            }
                        }
                        proof {
                            assert(apps_in_entries(dir@, post) == apps_in_entries(dir@, pre)
                                + apps_of_entry(dir@, ei));
                            assert(view_apps(apps@) =~= view_apps(apps0) + apps_in_entries(
                                dir@,
                                post,
                            ));
                        }
                    } else {
                        proof {
                            assert(apps_of_entry(dir@, entries@[i as int]) =~= Seq::<
                                AppInfoS,
                            >::empty());
                            assert(view_apps(apps@) =~= view_apps(apps0) + apps_in_entries(
                                dir@,
                                post,
                            ));
                        }
                    }
                },
                FsNode::File => {
                    proof {
                        assert(apps_of_entry(dir@, entries@[i as int]) =~= Seq::<
                            AppInfoS,
                        >::empty());
                        assert(view_apps(apps@) =~= view_apps(apps0) + apps_in_entries(
                            dir@,
                            post,
                        ));
                    }
                },
            }
        }
        i = i + 1;
    }
    proof {
        assert(entries@.subrange(0, entries@.len() as int) =~= entries@);
    }
}


/// The discovery output is ascending by bundle name.
pub open spec fn sorted_by_name(s: Seq<AppInfoS>) -> bool {
    forall|i: int, j: int| 0 <= i < j < s.len() ==> lex_le(s[i].name, s[j].name)
}

proof fn lemma_view_apps_remove(s: Seq<AppInfo>, i: int)
    requires
        0 <= i < s.len(),
    ensures
        view_apps(s.remove(i)) == view_apps(s).remove(i),
{
    assert(view_apps(s.remove(i)) =~= view_apps(s).remove(i));
}

proof fn lemma_view_apps_insert(s: Seq<AppInfo>, i: int, a: AppInfo)
    requires
        0 <= i <= s.len(),
    ensures
        view_apps(s.insert(i, a)) == view_apps(s).insert(i, a@),
{
    assert(view_apps(s.insert(i, a)) =~= view_apps(s).insert(i, a@));
}

/// Sorts the discovered applications ascending by name, keeping exactly the
/// same collection of records.
pub fn sort_apps(apps: &mut Vec<AppInfo>)
    ensures
        view_apps(final(apps)@).to_multiset() == view_apps(old(apps)@).to_multiset(),
        view_apps(final(apps)@).len() == view_apps(old(apps)@).len(),
        sorted_by_name(view_apps(final(apps)@)),
{
    let ghost m0 = view_apps(apps@).to_multiset();
    let ghost n = apps@.len();
    let mut i: usize = 1;
    while i < apps.len()
        invariant
            1 <= i,
            apps@.len() == n,
            view_apps(apps@).to_multiset() == m0,
            forall|k: int, l: int|
                0 <= k < l < i && l < n ==> lex_le(
                    view_apps(apps@)[k].name,
                    view_apps(apps@)[l].name,
                ),
        decreases apps@.len() - i,
    {
        let ghost s_full = apps@;
        let x = apps.remove(i);
        let ghost s_removed = apps@;
        proof {
            lemma_view_apps_remove(s_full, i as int);
            vstd::seq_lib::to_multiset_remove(view_apps(s_full), i as int);
            assert(forall|k: int| 0 <= k < i ==> view_apps(s_removed)[k] == view_apps(s_full)[k]);
        }
        let mut p: usize = 0;
        while p < i && str_le(apps[p].name.as_str(), x.name.as_str())
            invariant
                p <= i,
                i < n,
                apps@ == s_removed,
                apps@.len() == n - 1,
                forall|q: int| 0 <= q < p ==> lex_le(view_apps(apps@)[q].name, x@.name),
            decreases i - p,
        {
            proof {
                assert(view_apps(apps@)[p as int].name == apps@[p as int].name@);
            }
            p = p + 1;
        }
        proof {
            if p < i {
                lemma_lex_le_total(view_apps(s_removed)[p as int].name, x@.name);
                assert(lex_le(x@.name, view_apps(s_removed)[p as int].name));
            }
        }
        apps.insert(p, x);
        proof {
            lemma_view_apps_insert(s_removed, p as int, x);
            vstd::seq_lib::to_multiset_insert(view_apps(s_removed), p as int, x@);
            let vb = view_apps(s_full);
            assert(view_apps(apps@).to_multiset() =~= m0) by {
                broadcast use vstd::multiset::group_multiset_axioms;

                assert(view_apps(s_removed).to_multiset() == vb.to_multiset().remove(
                    vb[i as int],
                ));
                assert(vb.to_multiset().count(vb[i as int]) >= 1) by {
                    vstd::seq_lib::to_multiset_contains(vb, vb[i as int]);
                }
                assert(x@ == vb[i as int]);
            }
            let sv = view_apps(s_removed);
            let nv = view_apps(apps@);
            assert(nv == sv.insert(p as int, x@));
            assert forall|k: int, l: int| 0 <= k < l < i + 1 && l < n implies lex_le(
                nv[k].name,
                nv[l].name,
            ) by {
                assert(forall|q: int| 0 <= q < p ==> nv[q] == sv[q]);
                assert(nv[p as int] == x@);
                assert(forall|q: int| p < q <= i ==> nv[q] == sv[q - 1]);
                if k < p && l < p {
                } else if l == p {
                    assert(lex_le(sv[k].name, x@.name));
                } else if k == p {
                    assert(l > p);
                    if l - 1 > p as int {
                        assert(lex_le(sv[p as int].name, sv[l - 1].name));
                        lemma_lex_le_trans(x@.name, sv[p as int].name, sv[l - 1].name);
                    } else {
                        assert(lex_le(x@.name, sv[p as int].name));
                    }
                } else if k < p && l > p {
                    if l - 1 == k {
                        assert(lex_le(sv[k].name, x@.name));
                        lemma_lex_le_total(x@.name, sv[k].name);
                        assert(lex_le(nv[k].name, nv[l].name)) by {
                            if !lex_le(sv[k].name, sv[k].name) {
                                lemma_lex_le_total(sv[k].name, sv[k].name);
                            }
                        }
                    } else {
                        assert(lex_le(sv[k].name, sv[l - 1].name));
                    }
                } else {
                    assert(p < k < l);
                    assert(lex_le(sv[k - 1].name, sv[l - 1].name));
                }
            }
        }
        i = i + 1;
    }
    proof {
        if apps@.len() <= 1 {
            assert(sorted_by_name(view_apps(apps@)));
        }
        vstd::seq_lib::to_multiset_len(view_apps(apps@));
        vstd::seq_lib::to_multiset_len(view_apps(old(apps)@));
    }
}

/// Discovery: scans the given roots in order and returns every bundle found,
/// sorted ascending by display name. It holds exactly the records that
/// `apps_in_roots` describes.
pub fn list_apps_from_tree(roots: &Vec<FsRoot>) -> (r: Vec<AppInfo>)
    ensures
        view_apps(r@).to_multiset() == apps_in_roots(roots@).to_multiset(),
        view_apps(r@).len() == apps_in_roots(roots@).len(),
        sorted_by_name(view_apps(r@)),
{
    let mut apps: Vec<AppInfo> = Vec::new();
    let mut i: usize = 0;
    proof {
        assert(roots@.subrange(0, 0) =~= Seq::<FsRoot>::empty());
        assert(view_apps(apps@) =~= apps_in_roots(roots@.subrange(0, 0)));
    }
    while i < roots.len()
        invariant
            i <= roots@.len(),
            view_apps(apps@) == apps_in_roots(roots@.subrange(0, i as int)),
        decreases roots@.len() - i,
    {
        let ghost pre = roots@.subrange(0, i as int);
        let ghost post = roots@.subrange(0, i + 1);
        proof {
            assert(post.drop_last() =~= pre);
            assert(post.last() == roots@[i as int]);
        }
        let root = &roots[i];
        scan_entries(root.path.as_str(), &root.entries, &mut apps);
        proof {
            assert(view_apps(apps@) =~= apps_in_roots(post));
        }
        i = i + 1;
    }
    proof {
        assert(roots@.subrange(0, roots@.len() as int) =~= roots@);
    }
    sort_apps(&mut apps);
    proof {
        vstd::seq_lib::to_multiset_len(view_apps(apps@));
        vstd::seq_lib::to_multiset_len(apps_in_roots(roots@));
    }
    apps
}


// ---------------------------------------------------------------------------
// Laws of discovery.
// ---------------------------------------------------------------------------

/// No bundle-named entry anywhere in this subtree.
pub open spec fn node_bundle_free(n: FsNode) -> bool
    decreases n,
{
    match n {
        FsNode::File => true,
        FsNode::Dir(children) => entries_bundle_free(children@),
    }
}

/// No bundle-named entry anywhere among these entries or below them.
pub open spec fn entries_bundle_free(entries: Seq<FsEntry>) -> bool
    decreases entries,
{
    forall|i: int|
        0 <= i < entries.len() ==> !is_bundle_name((#[trigger] entries[i]).name@)
            && node_bundle_free(entries[i].node)
}

proof fn lemma_no_child_bundles(dir: Seq<char>, children: Seq<FsEntry>)
    requires
        forall|i: int| 0 <= i < children.len() ==> !is_bundle_name((#[trigger] children[i]).name@),
    ensures
        immediate_bundles(dir, children) == Seq::<AppInfoS>::empty(),
    decreases children.len(),
{
    if children.len() > 0 {
        lemma_no_child_bundles(dir, children.drop_last());
        assert(immediate_bundles(dir, children) =~= Seq::<AppInfoS>::empty());
    }
}

/// A subtree without a bundle-named entry contributes nothing, however deep
/// the scan recurses.
pub proof fn lemma_bundle_free_empty(dir: Seq<char>, entries: Seq<FsEntry>)
    requires
        entries_bundle_free(entries),
    ensures
        apps_in_entries(dir, entries) == Seq::<AppInfoS>::empty(),
    decreases entries,
{
    broadcast use vstd::seq::axiom_seq_subrange_decreases, vstd::std_specs::vec::axiom_vec_decreases_to_view;

    if entries.len() > 0 {
        let e = entries.last();
        assert(entries_bundle_free(entries.drop_last()));
        lemma_bundle_free_empty(dir, entries.drop_last());
        assert(!is_bundle_name(e.name@));
        match e.node {
            FsNode::Dir(children) => {
                if !begins_with_dot(e.name@) {
                    let p = path_join(dir, e.name@);
                    assert(entries_bundle_free(children@));
                    lemma_no_child_bundles(p, children@);
                    lemma_bundle_free_empty(p, children@);
                    assert(apps_of_entry(dir, e) =~= Seq::<AppInfoS>::empty());
                } else {
                    assert(apps_of_entry(dir, e) =~= Seq::<AppInfoS>::empty());
                }
            },
            FsNode::File => {
                assert(apps_of_entry(dir, e) =~= Seq::<AppInfoS>::empty());
            },
        }
        assert(apps_in_entries(dir, entries) =~= Seq::<AppInfoS>::empty());
    }
}

/// The number of bundle-named entries among these entries.
pub open spec fn bundle_count(entries: Seq<FsEntry>) -> nat
    decreases entries.len(),
{
    if entries.len() == 0 {
        0
    } else {
        bundle_count(entries.drop_last()) + if is_bundle_name(entries.last().name@) {
            1nat
        } else {
            0nat
        }
    }
}

/// The immediate bundles of a directory are exactly one record per
/// bundle-named child, each named by the child's name with the suffix
/// stripped and placed at the child's path.
pub proof fn lemma_immediate_bundles_members(dir: Seq<char>, children: Seq<FsEntry>)
    ensures
        immediate_bundles(dir, children).len() == bundle_count(children),
        forall|a: AppInfoS| #[trigger]
            immediate_bundles(dir, children).contains(a) ==> exists|q: int|
                0 <= q < children.len() && is_bundle_name((#[trigger] children[q]).name@) && a
                    == bundle_info(dir, children[q].name@),
    decreases children.len(),
{
    if children.len() > 0 {
        lemma_immediate_bundles_members(dir, children.drop_last());
        let rec = immediate_bundles(dir, children.drop_last());
        let whole = immediate_bundles(dir, children);
        assert forall|a: AppInfoS| #[trigger] whole.contains(a) implies exists|q: int|
            0 <= q < children.len() && is_bundle_name((#[trigger] children[q]).name@) && a
                == bundle_info(dir, children[q].name@) by {
            let k = choose|k: int| 0 <= k < whole.len() && whole[k] == a;
            if k < rec.len() {
                assert(rec.contains(a));
                let q = choose|q: int|
                    0 <= q < children.drop_last().len() && is_bundle_name(
                        (#[trigger] children.drop_last()[q]).name@,
                    ) && a == bundle_info(dir, children.drop_last()[q].name@);
                assert(children[q] == children.drop_last()[q]);
                assert(is_bundle_name(children[q].name@) && a == bundle_info(
                    dir,
                    children[q].name@,
                ));
            } else {
                let q = children.len() - 1;
                assert(is_bundle_name(children[q].name@) && a == bundle_info(
                    dir,
                    children[q].name@,
                ));
            }
        }
    }
}

/// Discovery on a tree whose bundles all sit at the top level of a root
/// finds exactly those bundles: as many records as bundle-named entries,
/// every bundle-named entry recorded under its stripped name at its path,
/// and nothing else.
pub proof fn lemma_top_level_exact(dir: Seq<char>, entries: Seq<FsEntry>)
    requires
        forall|i: int|
            0 <= i < entries.len() && !is_bundle_name((#[trigger] entries[i]).name@)
                ==> node_bundle_free(entries[i].node),
    ensures
        apps_in_entries(dir, entries) == immediate_bundles(dir, entries),
        apps_in_entries(dir, entries).len() == bundle_count(entries),
        forall|q: int|
            0 <= q < entries.len() && is_bundle_name((#[trigger] entries[q]).name@)
                ==> apps_in_entries(dir, entries).contains(bundle_info(dir, entries[q].name@)),
        forall|a: AppInfoS| #[trigger]
            apps_in_entries(dir, entries).contains(a) ==> exists|q: int|
                0 <= q < entries.len() && is_bundle_name((#[trigger] entries[q]).name@) && a
                    == bundle_info(dir, entries[q].name@),
    decreases entries,
{
    broadcast use vstd::seq::axiom_seq_subrange_decreases, vstd::std_specs::vec::axiom_vec_decreases_to_view;

    lemma_immediate_bundles_members(dir, entries);
    if entries.len() == 0 {
        assert(apps_in_entries(dir, entries) =~= immediate_bundles(dir, entries));
    } else {
        let e = entries.last();
        assert(forall|i: int|
            0 <= i < entries.drop_last().len() ==> entries.drop_last()[i] == entries[i]);
        lemma_top_level_exact(dir, entries.drop_last());
        if is_bundle_name(e.name@) {
            assert(apps_of_entry(dir, e) == seq![bundle_info(dir, e.name@)]);
            assert(apps_in_entries(dir, entries) =~= immediate_bundles(dir, entries));
        } else {
            assert(node_bundle_free(e.node));
            match e.node {
                FsNode::Dir(children) => {
                    if !begins_with_dot(e.name@) {
                        let p = path_join(dir, e.name@);
                        assert(entries_bundle_free(children@));
                        lemma_no_child_bundles(p, children@);
                        lemma_bundle_free_empty(p, children@);
                        assert(apps_of_entry(dir, e) =~= Seq::<AppInfoS>::empty());
                    } else {
                        assert(apps_of_entry(dir, e) =~= Seq::<AppInfoS>::empty());
                    }
                },
                FsNode::File => {
                    assert(apps_of_entry(dir, e) =~= Seq::<AppInfoS>::empty());
                },
            }
            assert(apps_in_entries(dir, entries) =~= immediate_bundles(dir, entries));
        }
        assert forall|q: int|
            0 <= q < entries.len() && is_bundle_name(
                (#[trigger] entries[q]).name@,
            ) implies apps_in_entries(dir, entries).contains(
            bundle_info(dir, entries[q].name@),
        ) by {
            lemma_immediate_bundles_contains(dir, entries, q);
        }
    }
}

proof fn lemma_immediate_bundles_contains(dir: Seq<char>, children: Seq<FsEntry>, j: int)
    requires
        0 <= j < children.len(),
        is_bundle_name(children[j].name@),
    ensures
        immediate_bundles(dir, children).contains(bundle_info(dir, children[j].name@)),
        immediate_bundles(dir, children).len() > 0,
    decreases children.len(),
{
    if j == children.len() - 1 {
        let rec = immediate_bundles(dir, children.drop_last());
        assert(immediate_bundles(dir, children)[rec.len() as int] == bundle_info(
            dir,
            children[j].name@,
        ));
    } else {
        lemma_immediate_bundles_contains(dir, children.drop_last(), j);
        assert(children.drop_last()[j] == children[j]);
        let rec = immediate_bundles(dir, children.drop_last());
        let k = choose|k: int| 0 <= k < rec.len() && rec[k] == bundle_info(dir, children[j].name@);
        assert(immediate_bundles(dir, children)[k] == bundle_info(dir, children[j].name@));
    }
}

proof fn lemma_apps_in_entries_contains_entry(
    dir: Seq<char>,
    entries: Seq<FsEntry>,
    i: int,
    a: AppInfoS,
)
    requires
        0 <= i < entries.len(),
        apps_of_entry(dir, entries[i]).contains(a),
    ensures
        apps_in_entries(dir, entries).contains(a),
    decreases entries.len(),
{
    if i == entries.len() - 1 {
        let rec = apps_in_entries(dir, entries.drop_last());
        let k = choose|k: int|
            0 <= k < apps_of_entry(dir, entries[i]).len() && apps_of_entry(dir, entries[i])[k]
                == a;
        assert(apps_in_entries(dir, entries)[rec.len() + k] == a);
    } else {
        assert(entries.drop_last()[i] == entries[i]);
        lemma_apps_in_entries_contains_entry(dir, entries.drop_last(), i, a);
        let rec = apps_in_entries(dir, entries.drop_last());
        let k = choose|k: int| 0 <= k < rec.len() && rec[k] == a;
        assert(apps_in_entries(dir, entries)[k] == a);
    }
}

/// A bundle nested one level down is found: when an entry is a non-hidden,
/// non-bundle directory with a bundle-named child, the scan of the entries
/// records that child, at the child's path.
pub proof fn lemma_nested_bundle_found(
    dir: Seq<char>,
    entries: Seq<FsEntry>,
    i: int,
    children: Seq<FsEntry>,
    j: int,
)
    requires
        0 <= i < entries.len(),
        !is_bundle_name(entries[i].name@),
        !begins_with_dot(entries[i].name@),
        entries[i].node matches FsNode::Dir(cv) && cv@ == children,
        0 <= j < children.len(),
        is_bundle_name(children[j].name@),
    ensures
        apps_in_entries(dir, entries).contains(
            bundle_info(path_join(dir, entries[i].name@), children[j].name@),
        ),
{
    let p = path_join(dir, entries[i].name@);
    lemma_immediate_bundles_contains(p, children, j);
    assert(apps_of_entry(dir, entries[i]) == immediate_bundles(p, children));
    lemma_apps_in_entries_contains_entry(
        dir,
        entries,
        i,
        bundle_info(p, children[j].name@),
    );
}

/// A bundle two levels down is found when nothing at the shallower level is
/// a bundle: the directory is recursed into exactly once more.
pub proof fn lemma_deep_bundle_found(
    dir: Seq<char>,
    entries: Seq<FsEntry>,
    i: int,
    children: Seq<FsEntry>,
    j: int,
    grandchildren: Seq<FsEntry>,
    k: int,
)
    requires
        0 <= i < entries.len(),
        !is_bundle_name(entries[i].name@),
        !begins_with_dot(entries[i].name@),
        entries[i].node matches FsNode::Dir(cv) && cv@ == children,
        forall|q: int| 0 <= q < children.len() ==> !is_bundle_name((#[trigger] children[q]).name@),
        0 <= j < children.len(),
        !begins_with_dot(children[j].name@),
        children[j].node matches FsNode::Dir(gv) && gv@ == grandchildren,
        0 <= k < grandchildren.len(),
        is_bundle_name(grandchildren[k].name@),
    ensures
        apps_in_entries(dir, entries).contains(
            bundle_info(
                path_join(path_join(dir, entries[i].name@), children[j].name@),
                grandchildren[k].name@,
            ),
        ),
{
    let p = path_join(dir, entries[i].name@);
    lemma_no_child_bundles(p, children);
    assert(apps_of_entry(dir, entries[i]) == apps_in_entries(p, children));
    lemma_nested_bundle_found(p, children, j, grandchildren, k);
    lemma_apps_in_entries_contains_entry(
        dir,
        entries,
        i,
        bundle_info(path_join(p, children[j].name@), grandchildren[k].name@),
    );
}

/// When any immediate child of a non-hidden, non-bundle directory is a
/// bundle, the scan does not recurse: what that entry contributes is its
/// immediate bundle children and nothing else — every record comes from a
/// bundle-named immediate child.
pub proof fn lemma_sibling_bundle_stops_recursion(
    dir: Seq<char>,
    e: FsEntry,
    children: Seq<FsEntry>,
    j: int,
)
    requires
        !is_bundle_name(e.name@),
        !begins_with_dot(e.name@),
        e.node matches FsNode::Dir(cv) && cv@ == children,
        0 <= j < children.len(),
        is_bundle_name(children[j].name@),
    ensures
        apps_of_entry(dir, e) == immediate_bundles(path_join(dir, e.name@), children),
        forall|a: AppInfoS| #[trigger]
            apps_of_entry(dir, e).contains(a) ==> exists|q: int|
                0 <= q < children.len() && is_bundle_name((#[trigger] children[q]).name@) && a
                    == bundle_info(path_join(dir, e.name@), children[q].name@),
{
    let p = path_join(dir, e.name@);
    lemma_immediate_bundles_contains(p, children, j);
    lemma_immediate_bundles_members(p, children);
}

} // verus!
