//! The folders of the sidebar: their order, and moving a root folder to a new
//! place by drag and drop.
use vstd::prelude::*;
use crate::notes::{
    int_order, lemma_lex_order_flip, lemma_lex_order_range, lemma_lex_order_trans, lex_order,
    lex_order_exec,
};
use crate::text::{chars_of, trim, trim_chars};

verus! {

/// `s` without the occurrences of `x`, the rest in order.
pub open spec fn without(s: Seq<u128>, x: u128) -> Seq<u128>
    decreases s.len(),
{
    if s.len() == 0 {
        s
    } else {
        let r = without(s.drop_last(), x);
        if s.last() == x {
            r
        } else {
            r.push(s.last())
        }
    }
}

/// The first position of `x` in `s`.
pub open spec fn first_index(s: Seq<u128>, x: u128) -> Option<int>
    decreases s.len(),
{
    if s.len() == 0 {
        None
    } else {
        match first_index(s.drop_last(), x) {
            Some(k) => Some(k),
            None => if s.last() == x {
                Some(s.len() - 1)
            } else {
                None
            },
        }
    }
}

/// The order after `moved` is taken out and put back just before `target`,
/// or at the end where `target` is not in the rest.
pub open spec fn moved_before(order: Seq<u128>, moved: u128, target: u128) -> Seq<u128> {
    let rest = without(order, moved);
    match first_index(rest, target) {
        Some(p) => rest.insert(p, moved),
        None => rest.push(moved),
    }
}

/// The order after `moved` is taken out and put back at the end.
pub open spec fn moved_to_end(order: Seq<u128>, moved: u128) -> Seq<u128> {
    without(order, moved).push(moved)
}

/// What is left holds no `x`.
proof fn lemma_without_no_x(s: Seq<u128>, x: u128)
    ensures
        !without(s, x).contains(x),
    decreases s.len(),
{
    if s.len() > 0 {
        lemma_without_no_x(s.drop_last(), x);
        let r = without(s.drop_last(), x);
        if s.last() != x {
            assert forall|k: int| 0 <= k < r.push(s.last()).len() implies r.push(s.last())[k] != x by {
                if k < r.len() {
                    assert(r.push(s.last())[k] == r[k]);
                }
            }
        }
    }
}

/// Taking out an absent item changes nothing.
proof fn lemma_without_absent(s: Seq<u128>, x: u128)
    requires
        !s.contains(x),
    ensures
        without(s, x) == s,
    decreases s.len(),
{
    if s.len() > 0 {
        assert(s.last() == s[s.len() - 1]);
        assert forall|k: int| 0 <= k < s.drop_last().len() implies s.drop_last()[k] != x by {
            assert(s.drop_last()[k] == s[k]);
        }
        lemma_without_absent(s.drop_last(), x);
        assert(s.drop_last().push(s.last()) == s);
    }
}

/// Taking out from a concatenation takes out from each part.
proof fn lemma_without_concat(a: Seq<u128>, b: Seq<u128>, x: u128)
    ensures
        without(a + b, x) == without(a, x) + without(b, x),
    decreases b.len(),
{
    if b.len() == 0 {
        assert(a + b == a);
        assert(without(a, x) + without(b, x) == without(a, x));
    } else {
        assert((a + b).drop_last() == a + b.drop_last());
        assert((a + b).last() == b.last());
        lemma_without_concat(a, b.drop_last(), x);
        if b.last() != x {
            assert(without(a, x) + without(b.drop_last(), x).push(b.last()) == (without(a, x)
                + without(b.drop_last(), x)).push(b.last()));
        }
    }
}

/// The first position found in a prefix is the first position in the whole.
proof fn lemma_first_index_prefix(s: Seq<u128>, n: int, x: u128)
    requires
        0 <= n <= s.len(),
        first_index(s.take(n), x) is Some,
    ensures
        first_index(s, x) == first_index(s.take(n), x),
    decreases s.len() - n,
{
    if n < s.len() {
        assert(s.take(n + 1).drop_last() == s.take(n));
        lemma_first_index_prefix(s, n + 1, x);
    } else {
        assert(s.take(n) == s);
    }
}

/// A found position holds `x`; no position is found exactly when `x` is absent.
proof fn lemma_first_index_bound(s: Seq<u128>, x: u128)
    ensures
        first_index(s, x) matches Some(k) ==> 0 <= k < s.len() && s[k] == x,
        first_index(s, x) is None <==> !s.contains(x),
    decreases s.len(),
{
    if s.len() > 0 {
        lemma_first_index_bound(s.drop_last(), x);
        if first_index(s, x) is None {
            assert forall|k: int| 0 <= k < s.len() implies s[k] != x by {
                if k < s.len() - 1 {
                    assert(s.drop_last()[k] == s[k]);
                }
            }
        } else if first_index(s.drop_last(), x) is Some {
            let k = first_index(s.drop_last(), x)->0;
            assert(s.drop_last()[k] == s[k]);
        }
    }
}

/// An item other than `x` keeps being present when `x` is taken out.
proof fn lemma_without_keeps(s: Seq<u128>, x: u128, y: u128)
    requires
        s.contains(y),
        y != x,
    ensures
        without(s, x).contains(y),
    decreases s.len(),
{
    let k = choose|k: int| 0 <= k < s.len() && s[k] == y;
    if s.last() == y {
        assert(without(s, x) == without(s.drop_last(), x).push(y));
        assert(without(s, x)[without(s, x).len() - 1] == y);
    } else {
        assert(k < s.len() - 1);
        assert(s.drop_last()[k] == y);
        lemma_without_keeps(s.drop_last(), x, y);
        let r = without(s.drop_last(), x);
        let j = choose|j: int| 0 <= j < r.len() && r[j] == y;
        if s.last() != x {
            assert(r.push(s.last())[j] == y);
        }
    }
}

/// The rest of `order`, computed.
fn without_exec(order: &Vec<u128>, x: u128) -> (r: Vec<u128>)
    ensures
        r@ == without(order@, x),
{
    let mut r: Vec<u128> = Vec::new();
    let mut i: usize = 0;
    while i < order.len()
        invariant
            i <= order.len(),
            r@ == without(order@.take(i as int), x),
        decreases order.len() - i,
    {
        assert(order@.take(i + 1).drop_last() == order@.take(i as int));
        if order[i] != x {
            r.push(order[i]);
        }
        i = i + 1;
    }
    assert(order@.take(order.len() as int) == order@);
    r
}

/// The first position of `x`, computed.
fn first_index_exec(s: &Vec<u128>, x: u128) -> (r: Option<usize>)
    ensures
        match r {
            Some(k) => first_index(s@, x) == Some(k as int),
            None => first_index(s@, x) is None,
        },
{
    let mut k: usize = 0;
    while k < s.len()
        invariant
            k <= s.len(),
            first_index(s@.take(k as int), x) is None,
        decreases s.len() - k,
    {
        assert(s@.take(k + 1).drop_last() == s@.take(k as int));
        if s[k] == x {
            proof {
                lemma_first_index_prefix(s@, k + 1, x);
            }
            return Some(k);
        }
        k = k + 1;
    }
    assert(s@.take(s.len() as int) == s@);
    None
}

/// The order with `moved` put back just before `target` (or at the end).
pub fn move_before(order: &Vec<u128>, moved: u128, target: u128) -> (r: Vec<u128>)
    ensures
        r@ == moved_before(order@, moved, target),
{
    let mut rest = without_exec(order, moved);
    match first_index_exec(&rest, target) {
        Some(p) => {
            proof {
                lemma_first_index_bound(rest@, target);
            }
            rest.insert(p, moved);
        },
        None => {
            rest.push(moved);
        },
    }
    rest
}

/// The order with `moved` put back at the end.
pub fn move_to_end(order: &Vec<u128>, moved: u128) -> (r: Vec<u128>)
    ensures
        r@ == moved_to_end(order@, moved),
{
    let mut rest = without_exec(order, moved);
    rest.push(moved);
    rest
}

/// Moving an item keeps the others in their order and holds the moved item
/// once: taking it out again gives what taking it out of the old order
/// gives, and the order is one longer than that.
pub proof fn law_move_keeps_others(order: Seq<u128>, moved: u128, target: u128)
    ensures
        without(moved_before(order, moved, target), moved) == without(order, moved),
        moved_before(order, moved, target).len() == without(order, moved).len() + 1,
        without(moved_to_end(order, moved), moved) == without(order, moved),
        moved_to_end(order, moved).len() == without(order, moved).len() + 1,
{
    let rest = without(order, moved);
    lemma_without_no_x(order, moved);
    lemma_without_absent(rest, moved);
    lemma_without_concat(rest, seq![moved], moved);
    assert(without(seq![moved], moved) == without(Seq::<u128>::empty(), moved)) by {
        assert(seq![moved].drop_last() == Seq::<u128>::empty());
    }
    assert(rest + seq![moved] == rest.push(moved));
    match first_index(rest, target) {
        Some(p) => {
            lemma_first_index_bound(rest, target);
            let a = rest.take(p);
            let b = rest.skip(p);
            assert(rest.insert(p, moved) == a + (seq![moved] + b));
            assert(rest == a + b);
            assert forall|k: int| 0 <= k < a.len() implies a[k] != moved by {
                assert(a[k] == rest[k]);
            }
            assert forall|k: int| 0 <= k < b.len() implies b[k] != moved by {
                assert(b[k] == rest[p + k]);
            }
            lemma_without_absent(a, moved);
            lemma_without_absent(b, moved);
            lemma_without_concat(a, seq![moved] + b, moved);
            lemma_without_concat(seq![moved], b, moved);
            assert(without(seq![moved], moved) + without(b, moved) == b);
        },
        None => {},
    }
}

/// A moved item lands just before the target, where the target is another
/// item of the order; moved to the end, it comes last.
pub proof fn law_move_lands_before_target(order: Seq<u128>, moved: u128, target: u128)
    requires
        moved != target,
        order.contains(target),
    ensures
        exists|k: int|
            0 <= k && k + 1 < moved_before(order, moved, target).len() && moved_before(
                order,
                moved,
                target,
            )[k] == moved && #[trigger] moved_before(order, moved, target)[k + 1] == target,
        moved_to_end(order, moved).last() == moved,
{
    let rest = without(order, moved);
    lemma_without_keeps(order, moved, target);
    lemma_first_index_bound(rest, target);
    let p = first_index(rest, target)->0;
    let r = rest.insert(p, moved);
    assert(moved_before(order, moved, target) == r);
    assert(r[p] == moved);
    assert(moved_before(order, moved, target)[p + 1] == target);
}

} // verus!

verus! {

/// A folder as the sidebar orders it: its id, its parent (none for a root
/// folder), its stored position and its name.
pub struct FolderEntry {
    pub id: u128,
    pub parent_id: Option<u128>,
    pub sort_order: i32,
    pub name: String,
}

/// The ids of the root folders, in list order.
pub open spec fn root_ids(folders: Seq<FolderEntry>) -> Seq<u128>
    decreases folders.len(),
{
    if folders.len() == 0 {
        Seq::empty()
    } else {
        let r = root_ids(folders.drop_last());
        if folders.last().parent_id is None {
            r.push(folders.last().id)
        } else {
            r
        }
    }
}

/// The last position of `x` in `s`.
pub open spec fn last_index(s: Seq<u128>, x: u128) -> Option<int>
    decreases s.len(),
{
    if s.len() == 0 {
        None
    } else if s.last() == x {
        Some(s.len() - 1)
    } else {
        last_index(s.drop_last(), x)
    }
}

/// Whether folder `k` is the first with its id.
pub open spec fn first_with_id(folders: Seq<FolderEntry>, k: int) -> bool {
    forall|t: int| 0 <= t < k ==> #[trigger] folders[t].id != folders[k].id
}

/// The stored position of folder `k` once the positions of `order` are
/// written: the first folder with an id that `order` names takes that id's
/// (last) position in `order`; the others keep theirs.
pub open spec fn new_sort_order(folders: Seq<FolderEntry>, order: Seq<u128>, k: int) -> i32 {
    if first_with_id(folders, k) && last_index(order, folders[k].id) is Some {
        (last_index(order, folders[k].id)->0) as i32
    } else {
        folders[k].sort_order
    }
}

/// `folders` with the positions of `order` written.
pub open spec fn with_positions(folders: Seq<FolderEntry>, order: Seq<u128>) -> Seq<FolderEntry> {
    Seq::new(
        folders.len(),
        |k: int|
            FolderEntry {
                id: folders[k].id,
                parent_id: folders[k].parent_id,
                sort_order: new_sort_order(folders, order, k),
                name: folders[k].name,
            },
    )
}

/// `new` is `folders` with the positions of `order` written.
pub open spec fn renumbered(folders: Seq<FolderEntry>, order: Seq<u128>, new: Seq<FolderEntry>) -> bool {
    &&& new.len() == folders.len()
    &&& forall|k: int|
        0 <= k < folders.len() ==> {
            &&& (#[trigger] new[k]).id == folders[k].id
            &&& new[k].parent_id == folders[k].parent_id
            &&& new[k].name == folders[k].name
            &&& new[k].sort_order == new_sort_order(folders, order, k)
        }
}

/// The root folders' ids, computed.
fn root_ids_exec(folders: &Vec<FolderEntry>) -> (r: Vec<u128>)
    ensures
        r@ == root_ids(folders@),
{
    let mut r: Vec<u128> = Vec::new();
    let mut i: usize = 0;
    while i < folders.len()
        invariant
            i <= folders.len(),
            r@ == root_ids(folders@.take(i as int)),
        decreases folders.len() - i,
    {
        assert(folders@.take(i + 1).drop_last() == folders@.take(i as int));
        if folders[i].parent_id.is_none() {
            r.push(folders[i].id);
        }
        i = i + 1;
    }
    assert(folders@.take(folders.len() as int) == folders@);
    r
}

/// Writes the positions of `order` into the folders: each id's position goes
/// to the first folder with that id.
fn write_positions(folders: &mut Vec<FolderEntry>, order: &Vec<u128>)
    ensures
        final(folders)@ == with_positions(old(folders)@, order@),
{
    let ghost src = folders@;
    let mut i: usize = 0;
    assert forall|k: int| 0 <= k < src.len() implies new_sort_order(src, order@.take(0), k)
        == src[k].sort_order by {
    }
    while i < order.len()
        invariant
            i <= order.len(),
            renumbered(src, order@.take(i as int), folders@),
        decreases order.len() - i,
    {
        let id = order[i];
        let mut j: usize = 0;
        while j < folders.len() && folders[j].id != id
            invariant
                j <= folders.len(),
                folders.len() == src.len(),
                forall|t: int| 0 <= t < j ==> #[trigger] folders@[t].id != id,
            decreases folders.len() - j,
        {
            j = j + 1;
        }
        let ghost before = folders@;
        assert(order@.take(i + 1).drop_last() == order@.take(i as int));
        assert(order@.take(i + 1).last() == id);
        if j < folders.len() {
            let mut f = folders.remove(j);
            f.sort_order = i as i32;
            folders.insert(j, f);
            assert forall|k: int| 0 <= k < src.len() implies {
                &&& (#[trigger] folders@[k]).id == src[k].id
                &&& folders@[k].parent_id == src[k].parent_id
                &&& folders@[k].name == src[k].name
                &&& folders@[k].sort_order == new_sort_order(src, order@.take(i + 1), k)
            } by {
                assert(before[k].id == src[k].id);
                if k == j {
                    assert forall|t: int| 0 <= t < k implies #[trigger] src[t].id != src[k].id by {
                        assert(before[t].id == src[t].id);
                    }
                } else if src[k].id == id {
                    if k > j {
                        assert(src[j as int].id == src[k].id);
                        assert(!first_with_id(src, k));
                    } else {
                        assert(before[k].id == id);
                    }
                }
            }
        } else {
            assert forall|k: int| 0 <= k < src.len() implies #[trigger] folders@[k].sort_order
                == new_sort_order(src, order@.take(i + 1), k) by {
                if src[k].id == id {
                    assert(before[k].id == src[k].id);
                }
            }
        }
        i = i + 1;
    }
    assert(order@.take(order.len() as int) == order@);
    assert(folders@ =~= with_positions(src, order@));
}

} // verus!

verus! {

/// What a folder is ordered by: its stored position, then its name.
pub open spec fn folder_key(f: FolderEntry) -> (i32, Seq<char>) {
    (f.sort_order, f.name@)
}

/// The sidebar order of two keys: by position, then by name (by code point,
/// as `String` compares). -1 puts `a` first, 1 puts `b` first.
pub open spec fn position_order(a: (i32, Seq<char>), b: (i32, Seq<char>)) -> int {
    let c = int_order(a.0 as int, b.0 as int);
    if c != 0 {
        c
    } else {
        lex_order(a.1, b.1)
    }
}

/// The folders are in sidebar order.
pub open spec fn folders_sorted(s: Seq<FolderEntry>) -> bool {
    forall|a: int, b: int|
        0 <= a < b < s.len() ==> position_order(folder_key(#[trigger] s[a]), folder_key(#[trigger] s[b]))
            <= 0
}

/// `perm` says where each folder of `new` stood in `old`: a one-to-one map
/// onto the positions of `old` under which folders that compare equal keep
/// their old relative order.
pub open spec fn folders_rearranged(old: Seq<FolderEntry>, new: Seq<FolderEntry>, perm: Seq<int>) -> bool {
    &&& new.len() == old.len()
    &&& perm.len() == new.len()
    &&& forall|k: int| 0 <= k < perm.len() ==> 0 <= #[trigger] perm[k] < old.len()
    &&& forall|k: int| 0 <= k < new.len() ==> #[trigger] new[k] == old[perm[k]]
    &&& forall|a: int, b: int| 0 <= a < b < perm.len() ==> #[trigger] perm[a] != #[trigger] perm[b]
    &&& forall|a: int, b: int|
        0 <= a < b < new.len() && position_order(folder_key(#[trigger] new[a]), folder_key(
            #[trigger] new[b],
        )) == 0 ==> perm[a] < perm[b]
}

/// `new` is `old` sorted for the sidebar, stably.
pub open spec fn folders_sorted_from(old: Seq<FolderEntry>, new: Seq<FolderEntry>) -> bool {
    folders_sorted(new) && exists|perm: Seq<int>| folders_rearranged(old, new, perm)
}

/// Swapping flips the comparison.
proof fn lemma_position_flip(a: (i32, Seq<char>), b: (i32, Seq<char>))
    ensures
        position_order(a, b) == -position_order(b, a),
{
    lemma_lex_order_flip(a.1, b.1);
}

/// The comparison is transitive.
proof fn lemma_position_trans(a: (i32, Seq<char>), b: (i32, Seq<char>), c: (i32, Seq<char>))
    requires
        position_order(a, b) <= 0,
        position_order(b, c) <= 0,
    ensures
        position_order(a, c) <= 0,
{
    if a.0 == b.0 && b.0 == c.0 {
        lemma_lex_order_trans(a.1, b.1, c.1);
    }
}

/// A comparison that is not "after" is "before or equal".
proof fn lemma_position_le(a: (i32, Seq<char>), b: (i32, Seq<char>))
    requires
        position_order(a, b) != 1,
    ensures
        position_order(a, b) <= 0,
{
    lemma_lex_order_range(a.1, b.1);
}

/// A folder's key, computed.
struct PositionKey {
    order: i32,
    name: Vec<char>,
}

/// The spec view of a computed key.
spec fn pkey_view(k: PositionKey) -> (i32, Seq<char>) {
    (k.order, k.name@)
}

/// The sidebar order of two computed keys.
fn position_order_exec(a: &PositionKey, b: &PositionKey) -> (r: i8)
    ensures
        r == position_order(pkey_view(*a), pkey_view(*b)),
{
    if a.order < b.order {
        -1
    } else if a.order > b.order {
        1
    } else {
        lex_order_exec(&a.name, &b.name)
    }
}

/// Sorts the folders for the sidebar: by stored position, then by name,
/// keeping folders that compare equal in their old order.
pub fn sort_folders(folders: &mut Vec<FolderEntry>)
    ensures
        folders_sorted_from(old(folders)@, final(folders)@),
{
    let ghost src = folders@;
    let mut input: Vec<FolderEntry> = Vec::new();
    std::mem::swap(folders, &mut input);
    let n = input.len();
    let mut out: Vec<FolderEntry> = Vec::new();
    let mut keys: Vec<PositionKey> = Vec::new();
    let ghost mut perm: Seq<int> = Seq::empty();
    let mut i: usize = 0;
    while i < n
        invariant
            n == src.len(),
            i <= n,
            input@ == src.skip(i as int),
            out.len() == i,
            keys.len() == i,
            perm.len() == i,
            forall|k: int| 0 <= k < i ==> pkey_view(#[trigger] keys@[k]) == folder_key(out@[k]),
            forall|k: int| 0 <= k < i ==> 0 <= #[trigger] perm[k] < i,
            forall|k: int| 0 <= k < i ==> #[trigger] out@[k] == src[perm[k]],
            forall|a: int, b: int| 0 <= a < b < i ==> #[trigger] perm[a] != #[trigger] perm[b],
            folders_sorted(out@),
            forall|a: int, b: int|
                0 <= a < b < i && position_order(folder_key(#[trigger] out@[a]), folder_key(
                    #[trigger] out@[b],
                )) == 0 ==> perm[a] < perm[b],
        decreases n - i,
    {
        assert(input@[0] == src[i as int]);
        let x = input.remove(0);
        assert(input@ == src.skip(i + 1));
        let kx = PositionKey { order: x.sort_order, name: chars_of(x.name.as_str()) };
        let mut j = out.len();
        while j > 0 && position_order_exec(&keys[j - 1], &kx) == 1
            invariant
                j <= out.len(),
                out.len() == keys.len(),
                forall|k: int| 0 <= k < out.len() ==> pkey_view(#[trigger] keys@[k]) == folder_key(out@[k]),
                forall|k: int| j <= k < out.len() ==> position_order(folder_key(#[trigger] out@[k]), pkey_view(kx)) == 1,
            decreases j,
        {
            j = j - 1;
        }
        proof {
            let ox = folder_key(x);
            assert(pkey_view(kx) == ox);
            let old_out = out@;
            let new_out = old_out.insert(j as int, x);
            let new_perm = perm.insert(j as int, i as int);
            assert forall|a: int, b: int| 0 <= a < b < i + 1 implies position_order(
                folder_key(#[trigger] new_out[a]),
                folder_key(#[trigger] new_out[b]),
            ) <= 0 && (position_order(folder_key(new_out[a]), folder_key(new_out[b])) == 0
                ==> new_perm[a] < new_perm[b]) by {
                if b < j {
                    assert(new_out[a] == old_out[a] && new_out[b] == old_out[b]);
                    assert(new_perm[a] == perm[a] && new_perm[b] == perm[b]);
                } else if b == j {
                    assert(new_out[b] == x);
                    assert(new_out[a] == old_out[a]);
                    assert(new_perm[b] == i);
                    assert(new_perm[a] == perm[a]);
                    assert(position_order(folder_key(old_out[j - 1]), ox) != 1);
                    lemma_position_le(folder_key(old_out[j - 1]), ox);
                    if a < j - 1 {
                        lemma_position_trans(folder_key(old_out[a]), folder_key(old_out[j - 1]), ox);
                    }
                } else if a == j {
                    assert(new_out[a] == x);
                    assert(new_out[b] == old_out[b - 1]);
                    lemma_position_flip(folder_key(old_out[b - 1]), ox);
                } else if a < j {
                    assert(new_out[a] == old_out[a]);
                    assert(new_out[b] == old_out[b - 1]);
                    assert(new_perm[a] == perm[a] && new_perm[b] == perm[b - 1]);
                } else {
                    assert(new_out[a] == old_out[a - 1]);
                    assert(new_out[b] == old_out[b - 1]);
                    assert(new_perm[a] == perm[a - 1] && new_perm[b] == perm[b - 1]);
                }
            }
            assert forall|a: int, b: int| 0 <= a < b < i + 1 implies #[trigger] new_perm[a]
                != #[trigger] new_perm[b] by {
                if a < j && b < j {
                } else if a < j && b == j {
                } else if a < j {
                    assert(new_perm[b] == perm[b - 1]);
                } else if a == j {
                    assert(new_perm[b] == perm[b - 1]);
                } else {
                    assert(new_perm[a] == perm[a - 1] && new_perm[b] == perm[b - 1]);
                }
            }
            perm = new_perm;
        }
        out.insert(j, x);
        keys.insert(j, kx);
        proof {
            assert forall|k: int| 0 <= k < i + 1 implies 0 <= #[trigger] perm[k] < i + 1 by {
                if k < j {
                } else if k > j {
                }
            }
            assert forall|k: int| 0 <= k < i + 1 implies #[trigger] out@[k] == src[perm[k]] by {
                if k < j {
                } else if k > j {
                }
            }
            assert forall|k: int| 0 <= k < i + 1 implies pkey_view(#[trigger] keys@[k]) == folder_key(out@[k]) by {
                if k < j {
                } else if k > j {
                }
            }
        }
        i = i + 1;
    }
    proof {
        assert(folders_rearranged(src, out@, perm));
    }
    *folders = out;
}

} // verus!

verus! {

/// Drag and drop of root folder `dragged` onto root folder `target`. Nothing
/// happens when they are the same folder. Otherwise the root folders are
/// reordered with `dragged` just before `target` (at the end where `target`
/// is not a root folder), each root folder's stored position becomes its
/// place in that order, and the folders are sorted again for the sidebar.
/// Returns the new order of the root folders, whose positions are to be
/// stored.
pub fn reorder_folder(folders: &mut Vec<FolderEntry>, dragged: u128, target: u128) -> (r: Option<Vec<u128>>)
    ensures
        dragged == target ==> r is None && final(folders)@ == old(folders)@,
        dragged != target ==> (r matches Some(order) && order@ == moved_before(
            root_ids(old(folders)@),
            dragged,
            target,
        ) && folders_sorted_from(with_positions(old(folders)@, order@), final(folders)@)),
{
    if dragged == target {
        return None;
    }
    let roots = root_ids_exec(folders);
    let order = move_before(&roots, dragged, target);
    write_positions(folders, &order);
    sort_folders(folders);
    Some(order)
}

/// Drop of root folder `folder_id` past the last root folder: it moves to
/// the end of the root folders, each root folder's stored position becomes
/// its place in the new order, and the folders are sorted again for the
/// sidebar. Returns the new order of the root folders.
pub fn reorder_to_end(folders: &mut Vec<FolderEntry>, folder_id: u128) -> (r: Vec<u128>)
    ensures
        r@ == moved_to_end(root_ids(old(folders)@), folder_id),
        folders_sorted_from(with_positions(old(folders)@, r@), final(folders)@),
{
    let roots = root_ids_exec(folders);
    let order = move_to_end(&roots, folder_id);
    write_positions(folders, &order);
    sort_folders(folders);
    order
}

/// A found last position holds `x`.
proof fn lemma_last_index_bound(s: Seq<u128>, x: u128)
    ensures
        last_index(s, x) matches Some(k) ==> 0 <= k < s.len() && s[k] == x,
    decreases s.len(),
{
    if s.len() > 0 && s.last() != x {
        lemma_last_index_bound(s.drop_last(), x);
        if last_index(s.drop_last(), x) is Some {
            let k = last_index(s.drop_last(), x)->0;
            assert(s.drop_last()[k] == s[k]);
        }
    }
}

/// After a reorder the folders that the new order names are listed in that
/// order: of two of them, the one listed first has the earlier place. This
/// holds where folder ids are distinct and every place fits a stored
/// position.
pub proof fn law_reorder_lists_in_order(
    folders: Seq<FolderEntry>,
    order: Seq<u128>,
    new: Seq<FolderEntry>,
    a: int,
    b: int,
)
    requires
        forall|i: int, j: int| 0 <= i < j < folders.len() ==> folders[i].id != folders[j].id,
        order.len() <= i32::MAX,
        folders_sorted_from(with_positions(folders, order), new),
        0 <= a < b < new.len(),
        last_index(order, new[a].id) is Some,
        last_index(order, new[b].id) is Some,
    ensures
        last_index(order, new[a].id)->0 < last_index(order, new[b].id)->0,
{
    let w = with_positions(folders, order);
    let perm = choose|perm: Seq<int>| folders_rearranged(w, new, perm);
    let pa = perm[a];
    let pb = perm[b];
    assert(new[a] == w[pa] && new[b] == w[pb]);
    assert(pa != pb);
    let ida = folders[pa].id;
    let idb = folders[pb].id;
    assert(ida != idb) by {
        if pa < pb {
            assert(folders[pa].id != folders[pb].id);
        } else {
            assert(folders[pb].id != folders[pa].id);
        }
    }
    assert(first_with_id(folders, pa)) by {
        assert forall|t: int| 0 <= t < pa implies #[trigger] folders[t].id != folders[pa].id by {
            assert(folders[t].id != folders[pa].id);
        }
    }
    assert(first_with_id(folders, pb)) by {
        assert forall|t: int| 0 <= t < pb implies #[trigger] folders[t].id != folders[pb].id by {
            assert(folders[t].id != folders[pb].id);
        }
    }
    lemma_last_index_bound(order, ida);
    lemma_last_index_bound(order, idb);
    let ia = last_index(order, ida)->0;
    let ib = last_index(order, idb)->0;
    assert(w[pa].sort_order == ia as i32);
    assert(w[pb].sort_order == ib as i32);
    assert(ia as i32 == ia && ib as i32 == ib);
    assert(position_order(folder_key(new[a]), folder_key(new[b])) <= 0);
    assert(order[ia] != order[ib]);
}

/// `new` is `old` with every folder `id` named `name`.
pub open spec fn renamed(old: Seq<FolderEntry>, new: Seq<FolderEntry>, id: u128, name: Seq<char>) -> bool {
    &&& new.len() == old.len()
    &&& forall|k: int|
        0 <= k < old.len() ==> {
            &&& (#[trigger] new[k]).id == old[k].id
            &&& new[k].parent_id == old[k].parent_id
            &&& new[k].sort_order == old[k].sort_order
            &&& if old[k].id == id {
                new[k].name@ == name
            } else {
                new[k].name == old[k].name
            }
        }
}

/// Names every entry of folder `id` in one list.
fn rename_in(list: &mut Vec<FolderEntry>, id: u128, name: &str)
    ensures
        renamed(old(list)@, final(list)@, id, name@),
{
    let ghost before = list@;
    let mut k: usize = 0;
    while k < list.len()
        invariant
            k <= list.len(),
            list.len() == before.len(),
            forall|j: int|
                0 <= j < before.len() ==> {
                    &&& (#[trigger] list@[j]).id == before[j].id
                    &&& list@[j].parent_id == before[j].parent_id
                    &&& list@[j].sort_order == before[j].sort_order
                    &&& if j < k && before[j].id == id {
                        list@[j].name@ == name@
                    } else {
                        list@[j].name == before[j].name
                    }
                },
        decreases before.len() - k,
    {
        if list[k].id == id {
            let ghost prev = list@;
            let mut f = list.remove(k);
            f.name = name.to_owned();
            list.insert(k, f);
            assert forall|j: int| 0 <= j < before.len() && j != k implies #[trigger] list@[j] == prev[j] by {
                if j < k {
                } else {
                }
            }
        }
        k = k + 1;
    }
}

/// Finishes renaming folder `id` in the sidebar: a name that is blank once
/// trimmed changes nothing (returns false); otherwise the folder takes the
/// name as typed, among the root folders and the subfolders.
pub fn rename_folder(folders: &mut Vec<FolderEntry>, subfolders: &mut Vec<FolderEntry>, id: u128, name: &str) -> (r: bool)
    ensures
        r == (trim(name@).len() > 0),
        r ==> renamed(old(folders)@, final(folders)@, id, name@) && renamed(
            old(subfolders)@,
            final(subfolders)@,
            id,
            name@,
        ),
        !r ==> final(folders)@ == old(folders)@ && final(subfolders)@ == old(subfolders)@,
{
    let v = chars_of(name);
    let t = trim_chars(&v);
    if t.len() == 0 {
        return false;
    }
    rename_in(folders, id, name);
    rename_in(subfolders, id, name);
    true
}

/// The entries of the "move to folder" picker: the top level, then every
/// root folder in list order; each with whether it holds the open note now.
pub open spec fn picker_entries(roots: Seq<u128>, current: Option<u128>) -> Seq<(Option<u128>, bool)> {
    seq![(None::<u128>, current is None)] + roots.map_values(|id: u128| (Some(id), current == Some(id)))
}

/// The entries of the "move to folder" picker, for a note now in folder
/// `current` (none: at the top level).
pub fn move_picker_entries(folders: &Vec<FolderEntry>, current: Option<u128>) -> (r: Vec<(Option<u128>, bool)>)
    ensures
        r@ == picker_entries(root_ids(folders@), current),
{
    let roots = root_ids_exec(folders);
    let mut r: Vec<(Option<u128>, bool)> = Vec::new();
    r.push((None, current.is_none()));
    let mut k: usize = 0;
    while k < roots.len()
        invariant
            k <= roots.len(),
            r@ == picker_entries(roots@.take(k as int), current),
        decreases roots.len() - k,
    {
        let id = roots[k];
        r.push((Some(id), current == Some(id)));
        assert(picker_entries(roots@.take(k + 1), current) == picker_entries(roots@.take(k as int), current).push((Some(id), current == Some(id)))) by {
            assert(roots@.take(k + 1) == roots@.take(k as int).push(id));
            assert(roots@.take(k + 1).map_values(|id: u128| (Some(id), current == Some(id))) =~= roots@.take(k as int).map_values(|id: u128| (Some(id), current == Some(id))).push((Some(id), current == Some(id))));
        }
        k = k + 1;
    }
    assert(roots@.take(roots.len() as int) == roots@);
    r
}

} // verus!
