//! Walking the sibling trees of the directory: listing a storage's children
//! and looking up a path.
use vstd::prelude::*;
use crate::directory::{DirectoryEntry, EntryKind};
use crate::chain::agrees;
use crate::text::{char_from, is_scalar, upper_chars, upper_of};
use crate::header::Diagnostic;
use crate::{CfbError, NOSTREAM};

verus! {

/// Ids of the sibling tree rooted at `id`, in order (left subtree, the node,
/// right subtree), descending at most `fuel` levels. A link that leaves the
/// entry list, or a descent past `fuel` levels (which a cycle causes), fails.
pub open spec fn inorder(es: Seq<DirectoryEntry>, id: u32, fuel: nat) -> Result<
    Seq<u32>,
    CfbError,
>
    decreases fuel,
{
    if id == NOSTREAM {
        Ok(seq![])
    } else if fuel == 0 || id as int >= es.len() {
        Err(CfbError::CorruptChain)
    } else {
        match inorder(es, es[id as int].left_sibling_id, (fuel - 1) as nat) {
            Ok(l) => match inorder(es, es[id as int].right_sibling_id, (fuel - 1) as nat) {
                Ok(r) => Ok(l + seq![id] + r),
                Err(e) => Err(e),
            },
            Err(e) => Err(e),
        }
    }
}

/// The children of entry `parent`, in tree order. A tree that reaches an
/// entry twice (a cycle, or a node shared by two parents) fails.
pub open spec fn spec_children(es: Seq<DirectoryEntry>, parent: int) -> Result<
    Seq<u32>,
    CfbError,
> {
    match inorder(es, es[parent].child_id, es.len()) {
        Ok(s) => if s.len() <= es.len() && s.no_duplicates() {
            Ok(s)
        } else {
            Err(CfbError::CorruptChain)
        },
        Err(e) => Err(e),
    }
}

proof fn lemma_inorder_err_kind(es: Seq<DirectoryEntry>, id: u32, fuel: nat)
    ensures
        inorder(es, id, fuel) is Err ==> inorder(es, id, fuel) == Err::<Seq<u32>, CfbError>(
            CfbError::CorruptChain,
        ),
    decreases fuel,
{
    if id != NOSTREAM && fuel > 0 && (id as int) < es.len() {
        lemma_inorder_err_kind(es, es[id as int].left_sibling_id, (fuel - 1) as nat);
        lemma_inorder_err_kind(es, es[id as int].right_sibling_id, (fuel - 1) as nat);
    }
}

fn visit(es: &Vec<DirectoryEntry>, id: u32, fuel: usize, out: &mut Vec<u32>, budget: &mut usize) -> (r:
    Result<(), CfbError>)
    ensures
        r is Ok <==> (inorder(es@, id, fuel as nat) matches Ok(s) && s.len() <= *old(budget)),
        r is Err ==> r == Err::<(), CfbError>(CfbError::CorruptChain),
        r is Ok ==> (inorder(es@, id, fuel as nat) matches Ok(s) && final(out)@ == old(out)@ + s
            && *final(budget) == *old(budget) - s.len()),
    decreases fuel,
{
    proof {
        lemma_inorder_err_kind(es@, id, fuel as nat);
    }
    if id == NOSTREAM {
        assert(out@ + seq![] =~= out@);
        return Ok(());
    }
    if fuel == 0 || id as usize >= es.len() {
        return Err(CfbError::CorruptChain);
    }
    let e = es[id as usize];
    let ghost out0 = out@;
    let ghost b0 = *budget;
    visit(es, e.left_sibling_id, fuel - 1, out, budget)?;
    let ghost l = out@.subrange(out0.len() as int, out@.len() as int);
    assert(out@ =~= out0 + l);
    if *budget == 0 {
        return Err(CfbError::CorruptChain);
    }
    out.push(id);
    *budget = *budget - 1;
    let ghost out1 = out@;
    visit(es, e.right_sibling_id, fuel - 1, out, budget)?;
    proof {
        let r = out@.subrange(out1.len() as int, out@.len() as int);
        assert(out@ =~= out0 + (l + seq![id] + r));
    }
    Ok(())
}

/// Ids of the children of entry `parent`, in tree order.
pub fn children_ids(es: &Vec<DirectoryEntry>, parent: usize) -> (r: Result<Vec<u32>, CfbError>)
    requires
        parent < es@.len(),
    ensures
        agrees(r, spec_children(es@, parent as int)),
{
    let mut out: Vec<u32> = Vec::new();
    let mut budget = es.len();
    let res = visit(es, es[parent].child_id, es.len(), &mut out, &mut budget);
    proof {
        lemma_inorder_err_kind(es@, es@[parent as int].child_id, es@.len());
        assert(Seq::<u32>::empty() + out@ =~= out@);
    }
    match res {
        Ok(()) => {
            proof {
                assert forall|k: int| 0 <= k < out@.len() implies (out@[k] as int) < es@.len() by {
                    lemma_inorder_in_range(es@, es@[parent as int].child_id, es@.len(), k);
                }
            }
            if distinct_ids(&out, es.len()) {
                Ok(out)
            } else {
                Err(CfbError::CorruptChain)
            }
        },
        Err(e) => Err(e),
    }
}

pub proof fn lemma_inorder_in_range(es: Seq<DirectoryEntry>, id: u32, fuel: nat, k: int)
    requires
        inorder(es, id, fuel) matches Ok(s) && 0 <= k < s.len(),
    ensures
        inorder(es, id, fuel) matches Ok(s) && (s[k] as int) < es.len(),
    decreases fuel,
{
    let l = inorder(es, es[id as int].left_sibling_id, (fuel - 1) as nat);
    let ls = l->Ok_0;
    if k < ls.len() {
        lemma_inorder_in_range(es, es[id as int].left_sibling_id, (fuel - 1) as nat, k);
    } else if k > ls.len() {
        lemma_inorder_in_range(
            es,
            es[id as int].right_sibling_id,
            (fuel - 1) as nat,
            k - ls.len() - 1,
        );
    }
}

/// True when no id occurs twice in `ids`, all of which are below `n`.
fn distinct_ids(ids: &Vec<u32>, n: usize) -> (r: bool)
    requires
        forall|k: int| 0 <= k < ids@.len() ==> (ids@[k] as int) < n,
    ensures
        r == ids@.no_duplicates(),
{
    let mut seen: Vec<bool> = Vec::new();
    let mut i: usize = 0;
    while i < n
        invariant
            i <= n,
            seen@.len() == i,
            forall|x: int| 0 <= x < i ==> !seen@[x],
        decreases n - i,
    {
        seen.push(false);
        i = i + 1;
    }
    let mut k: usize = 0;
    while k < ids.len()
        invariant
            forall|j: int| 0 <= j < ids@.len() ==> (ids@[j] as int) < n,
            seen@.len() == n,
            k <= ids@.len(),
            ids@.subrange(0, k as int).no_duplicates(),
            forall|x: int|
                0 <= x < n ==> (seen@[x] <==> exists|j: int|
                    0 <= j < k && ids@[j] as int == x),
        decreases ids@.len() - k,
    {
        let id = ids[k] as usize;
        if seen[id] {
            proof {
                let j = choose|j: int| 0 <= j < k && ids@[j] as int == id as int;
                assert(ids@[j] == ids@[k as int]);
            }
            return false;
        }
        seen[id] = true;
        proof {
            let p = ids@.subrange(0, k + 1);
            assert forall|a: int, b: int| 0 <= a < p.len() && 0 <= b < p.len() && a != b implies p[a]
                != p[b] by {
                if a < k && b < k {
                    assert(ids@.subrange(0, k as int)[a] == p[a]);
                    assert(ids@.subrange(0, k as int)[b] == p[b]);
                } else if a == k {
                    assert(!(exists|j: int| 0 <= j < k && ids@[j] as int == id as int));
                    assert(ids@[b] != ids@[k as int]);
                } else {
                    assert(!(exists|j: int| 0 <= j < k && ids@[j] as int == id as int));
                    assert(ids@[a] != ids@[k as int]);
                }
            }
            assert forall|x: int|
                0 <= x < n implies (seen@[x] <==> exists|j: int|
                    0 <= j < k + 1 && ids@[j] as int == x) by {
                if x == id as int {
                    assert(ids@[k as int] as int == x);
                }
            }
        }
        k = k + 1;
    }
    assert(ids@.subrange(0, ids@.len() as int) =~= ids@);
    true
}

/// The names of `list` rise strictly in sibling order.
pub open spec fn names_ascending(list: Seq<DirectoryEntry>) -> bool {
    forall|i: int|
        0 <= i < list.len() - 1 ==> cmp_names(
            (#[trigger] list[i]).name_units(),
            list[i + 1].name_units(),
        ) < 0
}

/// The entries that the ids `s` name.
pub open spec fn entries_of(es: Seq<DirectoryEntry>, s: Seq<u32>) -> Seq<DirectoryEntry> {
    Seq::new(s.len(), |k: int| es[s[k] as int])
}

/// Entry `i` is a storage (or the root) whose children, listed without
/// error, are out of name order.
pub open spec fn out_of_order_at(es: Seq<DirectoryEntry>, i: int) -> bool {
    &&& (es[i].kind == EntryKind::Storage || es[i].kind == EntryKind::Root)
    &&& spec_children(es, i) matches Ok(s) && !names_ascending(entries_of(es, s))
}

/// Some sibling tree of the directory breaks the name order.
pub open spec fn tree_out_of_order(es: Seq<DirectoryEntry>) -> bool {
    exists|i: int| 0 <= i < es.len() && #[trigger] out_of_order_at(es, i)
}

/// A warning when a sibling listing is out of name order; such trees occur
/// in real files and are still read.
pub fn order_warning(list: &Vec<DirectoryEntry>) -> (r: Option<Diagnostic>)
    requires
        all_wf(list@),
    ensures
        names_ascending(list@) ==> r is None,
        !names_ascending(list@) ==> r == Some(Diagnostic::SiblingOrder),
{
    let n = list.len();
    if n == 0 {
        return None;
    }
    let mut i: usize = 0;
    while i < n - 1
        invariant
            all_wf(list@),
            n == list@.len(),
            n > 0,
            i <= n - 1,
            forall|j: int|
                0 <= j < i && j < list@.len() - 1 ==> cmp_names(
                    (#[trigger] list@[j]).name_units(),
                    list@[j + 1].name_units(),
                ) < 0,
        decreases list@.len() - i,
    {
        let a = &list[i + 1];
        let units = name_units_of(&list[i]);
        if compare_name(units.as_slice(), a) >= 0 {
            return Some(Diagnostic::SiblingOrder);
        }
        i = i + 1;
    }
    None
}

/// The code units of `e`'s name.
fn name_units_of(e: &DirectoryEntry) -> (r: Vec<u16>)
    requires
        e.wf(),
    ensures
        r@ == e.name_units(),
{
    let n = e.name_len as usize;
    let mut u: Vec<u16> = Vec::new();
    let mut i: usize = 0;
    while i < n
        invariant
            n == e.name_len,
            n <= 32,
            i <= n,
            u@ == e.name@.subrange(0, i as int),
        decreases n - i,
    {
        u.push(e.name[i]);
        i = i + 1;
        assert(u@ =~= e.name@.subrange(0, i as int));
    }
    u
}

/// A code unit mapped to upper case: the character's upper-case mapping when
/// that is a single character that fits one unit, else the unit itself
/// (surrogate halves included).
pub open spec fn fold(u: u16) -> u16 {
    let s = upper_of(u as u32);
    if !is_scalar(u as u32) {
        u
    } else if s.len() == 1 && (s[0] as u32) < 0x10000 {
        (s[0] as u32) as u16
    } else {
        u
    }
}

/// Compares two names of equal length from position `i` on, case-insensitively:
/// -1, 0 or 1.
pub open spec fn cmp_units_from(a: Seq<u16>, b: Seq<u16>, i: int) -> int
    decreases a.len() - i,
{
    if i >= a.len() || i >= b.len() {
        0
    } else if fold(a[i]) < fold(b[i]) {
        -1
    } else if fold(a[i]) > fold(b[i]) {
        1
    } else {
        cmp_units_from(a, b, i + 1)
    }
}

/// The order of sibling names: shorter names first, names of equal length
/// case-insensitively. -1, 0 or 1.
pub open spec fn cmp_names(a: Seq<u16>, b: Seq<u16>) -> int {
    if a.len() < b.len() {
        -1
    } else if a.len() > b.len() {
        1
    } else {
        cmp_units_from(a, b, 0)
    }
}

fn fold_unit(u: u16) -> (r: u16)
    ensures
        r == fold(u),
{
    match char_from(u as u32) {
        None => u,
        Some(c) => {
            let up = upper_chars(c);
            if up.len() == 1 && (up[0] as u32) < 0x10000 {
                up[0] as u32 as u16
            } else {
                u
            }
        },
    }
}

/// Compares `a` with the name of `e` in sibling order.
pub fn compare_name(a: &[u16], e: &DirectoryEntry) -> (r: i8)
    requires
        e.wf(),
    ensures
        r as int == cmp_names(a@, e.name_units()),
{
    let n = e.name_len as usize;
    if a.len() < n {
        return -1;
    }
    if a.len() > n {
        return 1;
    }
    let mut i: usize = 0;
    while i < n
        invariant
            n == e.name_len,
            n <= 32,
            a@.len() == n,
            i <= n,
            cmp_units_from(a@, e.name_units(), 0) == cmp_units_from(a@, e.name_units(), i as int),
        decreases n - i,
    {
        let x = fold_unit(a[i]);
        let y = fold_unit(e.name[i]);
        if x < y {
            return -1;
        }
        if x > y {
            return 1;
        }
        i = i + 1;
    }
    0
}

/// Searches the sibling tree rooted at `id` for `name`, going left or right
/// by the sibling order, at most `fuel` levels deep.
pub open spec fn find_sibling(es: Seq<DirectoryEntry>, id: u32, name: Seq<u16>, fuel: nat) -> Result<
    u32,
    CfbError,
>
    decreases fuel,
{
    if id == NOSTREAM {
        Err(CfbError::NotFound)
    } else if fuel == 0 || id as int >= es.len() {
        Err(CfbError::CorruptChain)
    } else {
        let c = cmp_names(name, es[id as int].name_units());
        if c == 0 {
            Ok(id)
        } else if c < 0 {
            find_sibling(es, es[id as int].left_sibling_id, name, (fuel - 1) as nat)
        } else {
            find_sibling(es, es[id as int].right_sibling_id, name, (fuel - 1) as nat)
        }
    }
}

/// Every entry has a well-formed name.
pub open spec fn all_wf(es: Seq<DirectoryEntry>) -> bool {
    forall|i: int| 0 <= i < es.len() ==> (#[trigger] es[i]).wf()
}

/// Finds `name` among the children of the tree rooted at `root`.
pub fn find(es: &Vec<DirectoryEntry>, root: u32, name: &[u16]) -> (r: Result<u32, CfbError>)
    requires
        all_wf(es@),
    ensures
        r == find_sibling(es@, root, name@, es@.len()),
        r matches Ok(id) ==> (id as int) < es@.len(),
{
    let mut id = root;
    let mut fuel = es.len();
    while id != NOSTREAM
        invariant
            all_wf(es@),
            fuel <= es@.len(),
            find_sibling(es@, root, name@, es@.len()) == find_sibling(es@, id, name@, fuel as nat),
        decreases fuel,
    {
        if fuel == 0 || id as usize >= es.len() {
            return Err(CfbError::CorruptChain);
        }
        let e = &es[id as usize];
        let c = compare_name(name, e);
        if c == 0 {
            return Ok(id);
        } else if c < 0 {
            id = e.left_sibling_id;
        } else {
            id = e.right_sibling_id;
        }
        fuel = fuel - 1;
    }
    Err(CfbError::NotFound)
}

/// The entry that `path[i..]` names below entry `cur`: each segment is looked
/// up among the children of the entry the previous one named, and every
/// entry that is descended into below the start must be a storage.
pub open spec fn resolve_from(es: Seq<DirectoryEntry>, cur: u32, path: Seq<Seq<u16>>, i: int) -> Result<
    u32,
    CfbError,
>
    decreases path.len() - i,
{
    if i >= path.len() {
        Ok(cur)
    } else if i > 0 && es[cur as int].kind != EntryKind::Storage {
        Err(CfbError::NotFound)
    } else {
        match find_sibling(es, es[cur as int].child_id, path[i], es.len()) {
            Ok(id) => resolve_from(es, id, path, i + 1),
            Err(e) => Err(e),
        }
    }
}

proof fn lemma_find_never_matches(es: Seq<DirectoryEntry>, id: u32, name: Seq<u16>, fuel: nat)
    requires
        forall|i: int| 0 <= i < es.len() ==> cmp_names(name, #[trigger] es[i].name_units()) != 0,
    ensures
        find_sibling(es, id, name, fuel) is Err,
    decreases fuel,
{
    if id != NOSTREAM && fuel > 0 && (id as int) < es.len() {
        lemma_find_never_matches(es, es[id as int].left_sibling_id, name, (fuel - 1) as nat);
        lemma_find_never_matches(es, es[id as int].right_sibling_id, name, (fuel - 1) as nat);
    }
}

proof fn lemma_find_within_listed_tree(es: Seq<DirectoryEntry>, id: u32, name: Seq<u16>, fuel: nat)
    requires
        inorder(es, id, fuel) is Ok,
    ensures
        find_sibling(es, id, name, fuel) != Err::<u32, CfbError>(CfbError::CorruptChain),
    decreases fuel,
{
    if id != NOSTREAM {
        lemma_find_within_listed_tree(es, es[id as int].left_sibling_id, name, (fuel - 1) as nat);
        lemma_find_within_listed_tree(es, es[id as int].right_sibling_id, name, (fuel - 1) as nat);
    }
}

/// Looking up a path whose first name no entry has fails with `NotFound`,
/// whatever follows it, provided the root's sibling tree can be listed
/// (has no cycle and no link out of the directory).
pub proof fn lemma_missing_first_name(es: Seq<DirectoryEntry>, path: Seq<Seq<u16>>)
    requires
        path.len() > 0,
        es.len() > 0,
        forall|i: int| 0 <= i < es.len() ==> cmp_names(path[0], #[trigger] es[i].name_units()) != 0,
        spec_children(es, 0) is Ok,
    ensures
        resolve_from(es, 0, path, 0) == Err::<u32, CfbError>(CfbError::NotFound),
{
    let root = es[0].child_id;
    lemma_find_never_matches(es, root, path[0], es.len());
    lemma_find_within_listed_tree(es, root, path[0], es.len());
    lemma_find_err_kind(es, root, path[0], es.len());
}

proof fn lemma_find_err_kind(es: Seq<DirectoryEntry>, id: u32, name: Seq<u16>, fuel: nat)
    ensures
        find_sibling(es, id, name, fuel) matches Err(e) ==> (e == CfbError::NotFound || e
            == CfbError::CorruptChain),
    decreases fuel,
{
    if id != NOSTREAM && fuel > 0 && (id as int) < es.len() {
        lemma_find_err_kind(es, es[id as int].left_sibling_id, name, (fuel - 1) as nat);
        lemma_find_err_kind(es, es[id as int].right_sibling_id, name, (fuel - 1) as nat);
    }
}

/// The path as sequences of code units.
pub open spec fn path_view(path: Seq<Vec<u16>>) -> Seq<Seq<u16>> {
    Seq::new(path.len(), |k: int| path[k]@)
}

/// Looks up `path` segment by segment, starting at entry `start`.
pub fn resolve_ids(es: &Vec<DirectoryEntry>, start: u32, path: &Vec<Vec<u16>>) -> (r: Result<
    u32,
    CfbError,
>)
    requires
        all_wf(es@),
        (start as int) < es@.len(),
    ensures
        r == resolve_from(es@, start, path_view(path@), 0),
        r matches Ok(id) ==> (id as int) < es@.len(),
{
    let mut cur = start;
    let mut i: usize = 0;
    while i < path.len()
        invariant
            all_wf(es@),
            (cur as int) < es@.len(),
            i <= path@.len(),
            resolve_from(es@, start, path_view(path@), 0) == resolve_from(
                es@,
                cur,
                path_view(path@),
                i as int,
            ),
        decreases path@.len() - i,
    {
        if i > 0 && !matches!(es[cur as usize].kind, EntryKind::Storage) {
            return Err(CfbError::NotFound);
        }
        let id = find(es, es[cur as usize].child_id, path[i].as_slice())?;
        cur = id;
        i = i + 1;
    }
    Ok(cur)
}

} // verus!
