//! Partitions ranked units into named groups and renders a persisted
//! collapse state as a flattened display sequence.
//!
//! The group key of a unit is the suffix after the last `.` of its name
//! (its unit type); a name without a `.` falls into a literal "unknown"
//! bucket.  Groups are emitted in lexicographic order, each as a header
//! followed by its member units unless the group is collapsed.  The very
//! first build (an empty collapse set while groups exist) pre-collapses
//! every group except "service"; later builds honor the user's toggles.

use vstd::prelude::*;

use crate::systemd::{UnitInfo, UnitInfoV, units_view};
use crate::text::{chars_of, lex_lt, lemma_lex_cmp_eq, lemma_lex_cmp_flip, lemma_lex_cmp_trans,
    str_eq, string_from_chars};

verus! {

/// An item of the flattened tree view: a group header with its counts, or
/// one member unit.
pub enum TreeItem {
    Group { name: String, count: usize, active: usize },
    Unit { unit: UnitInfo },
}

/// The mathematical value of a [`TreeItem`].
pub ghost enum TreeItemV {
    Group { name: Seq<char>, count: int, active: int },
    Unit { unit: UnitInfoV },
}

impl View for TreeItem {
    type V = TreeItemV;

    open spec fn view(&self) -> TreeItemV {
        match self {
            TreeItem::Group { name, count, active } => TreeItemV::Group {
                name: name@,
                count: *count as int,
                active: *active as int,
            },
            TreeItem::Unit { unit } => TreeItemV::Unit { unit: unit@ },
        }
    }
}

/// The views of a sequence of tree items.
pub open spec fn items_view(s: Seq<TreeItem>) -> Seq<TreeItemV> {
    Seq::new(s.len(), |i: int| s[i]@)
}

/// The views of a sequence of group names.
pub open spec fn names_view(s: Seq<String>) -> Seq<Seq<char>> {
    Seq::new(s.len(), |i: int| s[i]@)
}

/// The position of the last `.` in a name, if any.
pub open spec fn last_dot(name: Seq<char>) -> Option<int>
    decreases name.len(),
{
    if name.len() == 0 {
        None
    } else if name.last() == '.' {
        Some(name.len() - 1)
    } else {
        last_dot(name.drop_last())
    }
}

/// The group key of a unit name: the suffix after the last `.`, or the
/// literal "unknown" bucket for a name without one.
pub open spec fn group_key(name: Seq<char>) -> Seq<char> {
    match last_dot(name) {
        Some(i) => name.subrange(i + 1, name.len() as int),
        None => "unknown"@,
    }
}

/// The group key of a unit name.
pub fn group_key_of(name: &str) -> (r: String)
    ensures
        r@ == group_key(name@),
{
    let chars = chars_of(name);
    let cl = chars.len();
    proof {
        assert(name@.subrange(0, cl as int) =~= name@);
    }
    let mut i: usize = cl;
    while i > 0
        invariant
            i <= cl,
            cl == chars@.len(),
            chars@ == name@,
            last_dot(name@) == last_dot(name@.subrange(0, i as int)),
        decreases i,
    {
        proof {
            let cur = name@.subrange(0, i as int);
            assert(cur.drop_last() =~= name@.subrange(0, i - 1 as int));
        }
        if chars[i - 1] == '.' {
            let mut suffix: Vec<char> = Vec::new();
            let mut j: usize = i;
            while j < cl
                invariant
                    i <= j <= cl,
                    cl == chars@.len(),
                    suffix@ == chars@.subrange(i as int, j as int),
                decreases cl - j,
            {
                suffix.push(chars[j]);
                proof {
                    assert(suffix@ =~= chars@.subrange(i as int, j + 1 as int));
                }
                j = j + 1;
            }
            proof {
                let cur = name@.subrange(0, i as int);
                assert(cur.last() == name@[i - 1]);
                assert(last_dot(name@) == Some(i - 1 as int));
            }
            return string_from_chars(&suffix);
        }
        i = i - 1;
    }
    proof {
        assert(name@.subrange(0, 0) =~= Seq::<char>::empty());
    }
    "unknown".to_owned()
}

/// Inserts a key into a sorted, duplicate-free key list, keeping it sorted
/// and duplicate-free.
pub open spec fn insert_key(s: Seq<Seq<char>>, k: Seq<char>) -> Seq<Seq<char>>
    decreases s.len(),
{
    if s.len() == 0 {
        seq![k]
    } else if s.last() == k {
        s
    } else if lex_lt(s.last(), k) {
        s.push(k)
    } else {
        insert_key(s.drop_last(), k).push(s.last())
    }
}

/// The sorted, duplicate-free list of group keys of a snapshot.
pub open spec fn sorted_keys(units: Seq<UnitInfoV>) -> Seq<Seq<char>>
    decreases units.len(),
{
    if units.len() == 0 {
        Seq::empty()
    } else {
        insert_key(sorted_keys(units.drop_last()), group_key(units.last().name))
    }
}

/// The units of a snapshot that fall into the given group, in order.
pub open spec fn members(units: Seq<UnitInfoV>, g: Seq<char>) -> Seq<UnitInfoV>
    decreases units.len(),
{
    if units.len() == 0 {
        Seq::empty()
    } else {
        let rest = members(units.drop_last(), g);
        if group_key(units.last().name) == g {
            rest.push(units.last())
        } else {
            rest
        }
    }
}

/// How many of the given units are active.
pub open spec fn count_active(units: Seq<UnitInfoV>) -> int
    decreases units.len(),
{
    if units.len() == 0 {
        0
    } else {
        count_active(units.drop_last()) + if units.last().active_state == "active"@ {
            1int
        } else {
            0int
        }
    }
}

/// The member units of a group as tree items.
pub open spec fn unit_items(ms: Seq<UnitInfoV>) -> Seq<TreeItemV> {
    Seq::new(ms.len(), |i: int| TreeItemV::Unit { unit: ms[i] })
}

/// The display block of one group: its header, then its members unless the
/// group is collapsed.
pub open spec fn group_block(units: Seq<UnitInfoV>, g: Seq<char>, collapsed: Seq<Seq<char>>) -> Seq<
    TreeItemV,
> {
    let ms = members(units, g);
    let header = TreeItemV::Group { name: g, count: ms.len() as int, active: count_active(ms) };
    if collapsed.contains(g) {
        seq![header]
    } else {
        seq![header] + unit_items(ms)
    }
}

/// The flattened tree: the display blocks of the given keys, in order.
pub open spec fn tree_of(units: Seq<UnitInfoV>, keys: Seq<Seq<char>>, collapsed: Seq<Seq<char>>) -> Seq<
    TreeItemV,
>
    decreases keys.len(),
{
    if keys.len() == 0 {
        Seq::empty()
    } else {
        tree_of(units, keys.drop_last(), collapsed) + group_block(units, keys.last(), collapsed)
    }
}

/// The keys that are pre-collapsed on the first build: every key except
/// "service", in order.
pub open spec fn non_service(keys: Seq<Seq<char>>) -> Seq<Seq<char>>
    decreases keys.len(),
{
    if keys.len() == 0 {
        Seq::empty()
    } else {
        let rest = non_service(keys.drop_last());
        if keys.last() == "service"@ {
            rest
        } else {
            rest.push(keys.last())
        }
    }
}

/// The collapse set after a build: on the very first build with groups
/// present (and only then, `first_build`), an empty set is seeded with
/// every non-"service" key; afterwards the set is never re-seeded and
/// the user's toggles are honored as they stand.
pub open spec fn seeded(collapsed: Seq<Seq<char>>, keys: Seq<Seq<char>>, first_build: bool) -> Seq<
    Seq<char>,
> {
    if first_build && collapsed.len() == 0 && keys.len() > 0 {
        non_service(keys)
    } else {
        collapsed
    }
}


/// No name appears twice.
pub open spec fn distinct_names(s: Seq<Seq<char>>) -> bool {
    forall|i: int, j: int| 0 <= i < j < s.len() ==> s[i] != s[j]
}

/// The names stand in strictly increasing order.
pub open spec fn names_sorted(s: Seq<Seq<char>>) -> bool {
    forall|i: int, j: int| 0 <= i < j < s.len() ==> lex_lt(#[trigger] s[i], #[trigger] s[j])
}

/// Insertion adds no name of its own: everything in the result was in the
/// list or is the inserted key.
pub proof fn lemma_insert_key_contains(s: Seq<Seq<char>>, k: Seq<char>, x: Seq<char>)
    requires
        insert_key(s, k).contains(x),
    ensures
        s.contains(x) || x == k,
    decreases s.len(),
{
    let r = insert_key(s, k);
    let i = choose|i: int| 0 <= i < r.len() && r[i] == x;
    if s.len() == 0 {
    } else if s.last() == k {
    } else if lex_lt(s.last(), k) {
        if i < s.len() {
            assert(s[i] == x);
        }
    } else {
        let inner = insert_key(s.drop_last(), k);
        if i < inner.len() {
            assert(inner[i] == x);
            lemma_insert_key_contains(s.drop_last(), k, x);
            if s.drop_last().contains(x) {
                let j = choose|j: int| 0 <= j < s.drop_last().len() && s.drop_last()[j] == x;
                assert(s[j] == x);
            }
        } else {
            assert(x == s.last());
        }
    }
}

/// Insertion keeps the list strictly sorted.
pub proof fn lemma_insert_key_sorted(s: Seq<Seq<char>>, k: Seq<char>)
    requires
        names_sorted(s),
    ensures
        names_sorted(insert_key(s, k)),
    decreases s.len(),
{
    let r = insert_key(s, k);
    if s.len() == 0 {
    } else if s.last() == k {
    } else if lex_lt(s.last(), k) {
        assert forall|i: int, j: int| 0 <= i < j < r.len() implies lex_lt(
            #[trigger] r[i],
            #[trigger] r[j],
        ) by {
            if j == s.len() {
                if i < s.len() - 1 {
                    lemma_lex_cmp_trans(s[i], s[s.len() - 1], k);
                }
            }
        }
    } else {
        lemma_lex_cmp_eq(s.last(), k);
        lemma_lex_cmp_flip(s.last(), k);
        assert(lex_lt(k, s.last()));
        let d = s.drop_last();
        assert forall|i: int, j: int| 0 <= i < j < d.len() implies lex_lt(
            #[trigger] d[i],
            #[trigger] d[j],
        ) by {
            assert(d[i] == s[i]);
            assert(d[j] == s[j]);
        }
        lemma_insert_key_sorted(d, k);
        let inner = insert_key(d, k);
        assert forall|i: int, j: int| 0 <= i < j < r.len() implies lex_lt(
            #[trigger] r[i],
            #[trigger] r[j],
        ) by {
            if j == inner.len() {
                assert(r[j] == s.last());
                assert(inner.contains(inner[i]));
                lemma_insert_key_contains(d, k, inner[i]);
                if d.contains(inner[i]) {
                    let t = choose|t: int| 0 <= t < d.len() && d[t] == inner[i];
                    assert(d[t] == s[t]);
                    assert(lex_lt(s[t], s[s.len() - 1]));
                }
            } else {
                assert(inner[i] == r[i]);
                assert(inner[j] == r[j]);
            }
        }
    }
}

/// The group key list of any snapshot is strictly sorted.
pub proof fn lemma_sorted_keys_sorted(units: Seq<UnitInfoV>)
    ensures
        names_sorted(sorted_keys(units)),
    decreases units.len(),
{
    if units.len() > 0 {
        lemma_sorted_keys_sorted(units.drop_last());
        lemma_insert_key_sorted(sorted_keys(units.drop_last()), group_key(units.last().name));
    }
}

/// A strictly sorted list holds no name twice.
pub proof fn lemma_sorted_distinct(s: Seq<Seq<char>>)
    requires
        names_sorted(s),
    ensures
        distinct_names(s),
{
    assert forall|i: int, j: int| 0 <= i < j < s.len() implies s[i] != s[j] by {
        assert(lex_lt(s[i], s[j]));
        lemma_lex_cmp_eq(s[i], s[j]);
    }
}

/// The pre-collapsed keys all come from the key list.
pub proof fn lemma_non_service_contains(keys: Seq<Seq<char>>, x: Seq<char>)
    requires
        non_service(keys).contains(x),
    ensures
        keys.contains(x),
    decreases keys.len(),
{
    let r = non_service(keys);
    let i = choose|i: int| 0 <= i < r.len() && r[i] == x;
    let rest = non_service(keys.drop_last());
    if keys.last() != "service"@ && i == rest.len() {
        assert(keys[keys.len() - 1] == x);
    } else {
        assert(rest[i] == x);
        lemma_non_service_contains(keys.drop_last(), x);
        let j = choose|j: int| 0 <= j < keys.drop_last().len() && keys.drop_last()[j] == x;
        assert(keys[j] == x);
    }
}

/// Dropping the "service" key keeps the list duplicate-free.
pub proof fn lemma_non_service_distinct(keys: Seq<Seq<char>>)
    requires
        distinct_names(keys),
    ensures
        distinct_names(non_service(keys)),
    decreases keys.len(),
{
    if keys.len() > 0 {
        let d = keys.drop_last();
        assert forall|i: int, j: int| 0 <= i < j < d.len() implies d[i] != d[j] by {
            assert(d[i] == keys[i]);
            assert(d[j] == keys[j]);
        }
        lemma_non_service_distinct(d);
        let rest = non_service(d);
        if keys.last() != "service"@ {
            assert forall|i: int, j: int| 0 <= i < j < rest.push(keys.last()).len() implies
                rest.push(keys.last())[i] != rest.push(keys.last())[j] by {
                if j == rest.len() {
                    if rest[i] == keys.last() {
                        assert(rest.contains(rest[i]));
                        lemma_non_service_contains(d, rest[i]);
                        let t = choose|t: int| 0 <= t < d.len() && d[t] == rest[i];
                        assert(keys[t] == keys[keys.len() - 1]);
                    }
                }
            }
        }
    }
}

/// Seeding keeps the collapse set duplicate-free.
pub proof fn lemma_seeded_distinct(
    collapsed: Seq<Seq<char>>,
    units: Seq<UnitInfoV>,
    first_build: bool,
)
    requires
        distinct_names(collapsed),
    ensures
        distinct_names(seeded(collapsed, sorted_keys(units), first_build)),
{
    if first_build && collapsed.len() == 0 && sorted_keys(units).len() > 0 {
        lemma_sorted_keys_sorted(units);
        lemma_sorted_distinct(sorted_keys(units));
        lemma_non_service_distinct(sorted_keys(units));
    }
}

/// Rebuilding the tree again with the same ranked list and collapse set
/// yields identical output: once a build has seen groups, the collapse
/// set is never re-seeded and not a single item changes.
pub proof fn lemma_rebuild_idempotent(
    units: Seq<UnitInfoV>,
    collapsed: Seq<Seq<char>>,
    first_build: bool,
)
    ensures
        seeded(
            seeded(collapsed, sorted_keys(units), first_build),
            sorted_keys(units),
            first_build && sorted_keys(units).len() == 0,
        ) == seeded(collapsed, sorted_keys(units), first_build),
        tree_of(
            units,
            sorted_keys(units),
            seeded(
                seeded(collapsed, sorted_keys(units), first_build),
                sorted_keys(units),
                first_build && sorted_keys(units).len() == 0,
            ),
        ) == tree_of(units, sorted_keys(units), seeded(collapsed, sorted_keys(units), first_build)),
{
}

fn insert_key_exec(v: Vec<String>, k: String) -> (r: Vec<String>)
    ensures
        names_view(r@) == insert_key(names_view(v@), k@),
    decreases v@.len(),
{
    let mut v = v;
    if v.len() == 0 {
        v.push(k);
        proof {
            assert(names_view(v@) =~= seq![k@]);
        }
        v
    } else {
        let c = crate::text::cmp_str(v[v.len() - 1].as_str(), k.as_str());
        proof {
            lemma_lex_cmp_eq(v@[v@.len() - 1]@, k@);
            assert(names_view(v@).last() == v@[v@.len() - 1]@);
        }
        if c == 0 {
            v
        } else if c < 0 {
            let ghost pre = v@;
            v.push(k);
            proof {
                assert(names_view(v@) =~= names_view(pre).push(k@));
            }
            v
        } else {
            let ghost pre = v@;
            let last = v.pop().unwrap();
            proof {
                assert(names_view(pre).last() == last@);
                assert(names_view(v@) =~= names_view(pre).drop_last());
            }
            let mut r = insert_key_exec(v, k);
            r.push(last);
            proof {
                assert(names_view(r@) =~= insert_key(
                    names_view(pre).drop_last(),
                    k@,
                ).push(names_view(pre).last()));
            }
            r
        }
    }
}

/// The sorted, duplicate-free list of group keys of a snapshot.
pub fn collect_keys(units: &Vec<UnitInfo>) -> (r: Vec<String>)
    ensures
        names_view(r@) == sorted_keys(units_view(units@)),
{
    let mut r: Vec<String> = Vec::new();
    let ul = units.len();
    let mut i: usize = 0;
    while i < ul
        invariant
            ul == units@.len(),
            i <= ul,
            names_view(r@) == sorted_keys(units_view(units@.subrange(0, i as int))),
        decreases ul - i,
    {
        let k = group_key_of(units[i].name.as_str());
        r = insert_key_exec(r, k);
        proof {
            let pre = units_view(units@.subrange(0, i as int));
            let cur = units_view(units@.subrange(0, i + 1 as int));
            assert(cur.drop_last() =~= pre);
            assert(cur.last() == units@[i as int]@);
        }
        i = i + 1;
    }
    proof {
        assert(units@.subrange(0, ul as int) =~= units@);
    }
    r
}

/// Whether a name list holds the given name.
pub fn names_contains(v: &Vec<String>, x: &str) -> (r: bool)
    ensures
        r == names_view(v@).contains(x@),
{
    let vl = v.len();
    let mut i: usize = 0;
    while i < vl
        invariant
            vl == v@.len(),
            i <= vl,
            forall|j: int| 0 <= j < i ==> names_view(v@)[j] != x@,
        decreases vl - i,
    {
        if str_eq(v[i].as_str(), x) {
            proof {
                assert(names_view(v@)[i as int] == x@);
            }
            return true;
        }
        i = i + 1;
    }
    proof {
        assert(forall|j: int| 0 <= j < v@.len() ==> names_view(v@)[j] != x@);
    }
    false
}

fn collect_members(units: &Vec<UnitInfo>, g: &String) -> (r: Vec<UnitInfo>)
    ensures
        units_view(r@) == members(units_view(units@), g@),
{
    let mut r: Vec<UnitInfo> = Vec::new();
    let ul = units.len();
    let mut i: usize = 0;
    while i < ul
        invariant
            ul == units@.len(),
            i <= ul,
            units_view(r@) == members(units_view(units@.subrange(0, i as int)), g@),
        decreases ul - i,
    {
        let k = group_key_of(units[i].name.as_str());
        proof {
            let pre = units_view(units@.subrange(0, i as int));
            let cur = units_view(units@.subrange(0, i + 1 as int));
            assert(cur.drop_last() =~= pre);
            assert(cur.last() == units@[i as int]@);
        }
        if str_eq(k.as_str(), g.as_str()) {
            r.push(units[i].duplicate());
            proof {
                assert(units_view(r@) =~= members(
                    units_view(units@.subrange(0, i + 1 as int)),
                    g@,
                ));
            }
        } else {
            proof {
                assert(units_view(r@) =~= members(
                    units_view(units@.subrange(0, i + 1 as int)),
                    g@,
                ));
            }
        }
        i = i + 1;
    }
    proof {
        assert(units@.subrange(0, ul as int) =~= units@);
    }
    r
}

fn count_active_exec(ms: &Vec<UnitInfo>) -> (r: usize)
    ensures
        r as int == count_active(units_view(ms@)),
        r <= ms@.len(),
{
    let ml = ms.len();
    let mut r: usize = 0;
    let mut i: usize = 0;
    while i < ml
        invariant
            ml == ms@.len(),
            i <= ml,
            r <= i,
            r as int == count_active(units_view(ms@.subrange(0, i as int))),
        decreases ml - i,
    {
        proof {
            let pre = units_view(ms@.subrange(0, i as int));
            let cur = units_view(ms@.subrange(0, i + 1 as int));
            assert(cur.drop_last() =~= pre);
            assert(cur.last() == ms@[i as int]@);
        }
        if ms[i].is_active() {
            r = r + 1;
        }
        i = i + 1;
    }
    proof {
        assert(ms@.subrange(0, ml as int) =~= ms@);
    }
    r
}

/// Rebuilds the flattened tree from a ranked snapshot, seeding the collapse
/// set on the very first build with groups present and honoring it
/// afterwards.
pub fn build_tree(units: &Vec<UnitInfo>, collapsed: &mut Vec<String>, first_build: bool) -> (r:
    Vec<TreeItem>)
    ensures
        names_view(final(collapsed)@) == seeded(
            names_view(old(collapsed)@),
            sorted_keys(units_view(units@)),
            first_build,
        ),
        items_view(r@) == tree_of(
            units_view(units@),
            sorted_keys(units_view(units@)),
            names_view(final(collapsed)@),
        ),
{
    let keys = collect_keys(units);
    let kl = keys.len();
    if first_build && collapsed.len() == 0 && kl > 0 {
        let mut i: usize = 0;
        while i < kl
            invariant
                kl == keys@.len(),
                i <= kl,
                names_view(collapsed@) == non_service(names_view(keys@.subrange(0, i as int))),
            decreases kl - i,
        {
            proof {
                let pre = names_view(keys@.subrange(0, i as int));
                let cur = names_view(keys@.subrange(0, i + 1 as int));
                assert(cur.drop_last() =~= pre);
                assert(cur.last() == keys@[i as int]@);
            }
            if !str_eq(keys[i].as_str(), "service") {
                collapsed.push(keys[i].clone());
                proof {
                    assert(names_view(collapsed@) =~= non_service(
                        names_view(keys@.subrange(0, i + 1 as int)),
                    ));
                }
            } else {
                proof {
                    assert(names_view(collapsed@) =~= non_service(
                        names_view(keys@.subrange(0, i + 1 as int)),
                    ));
                }
            }
            i = i + 1;
        }
        proof {
            assert(keys@.subrange(0, kl as int) =~= keys@);
        }
    }
    let mut r: Vec<TreeItem> = Vec::new();
    let mut i: usize = 0;
    while i < kl
        invariant
            kl == keys@.len(),
            i <= kl,
            names_view(keys@) == sorted_keys(units_view(units@)),
            items_view(r@) == tree_of(
                units_view(units@),
                names_view(keys@.subrange(0, i as int)),
                names_view(collapsed@),
            ),
        decreases kl - i,
    {
        let ghost pre_keys = names_view(keys@.subrange(0, i as int));
        let ghost cur_keys = names_view(keys@.subrange(0, i + 1 as int));
        proof {
            assert(cur_keys.drop_last() =~= pre_keys);
            assert(cur_keys.last() == keys@[i as int]@);
        }
        let ms = collect_members(units, &keys[i]);
        let active = count_active_exec(&ms);
        let count = ms.len();
        r.push(TreeItem::Group { name: keys[i].clone(), count, active });
        let is_collapsed = names_contains(collapsed, keys[i].as_str());
        if !is_collapsed {
            let ghost after_header = items_view(r@);
            let ghost msv = units_view(ms@);
            let mut ms = ms;
            let ghost ms_orig = ms@;
            while ms.len() > 0
                invariant
                    ms@.len() <= ms_orig.len(),
                    ms@ == ms_orig.subrange(ms_orig.len() - ms@.len(), ms_orig.len() as int),
                    units_view(ms_orig) == msv,
                    items_view(r@) == after_header + unit_items(
                        msv.subrange(0, ms_orig.len() - ms@.len()),
                    ),
                decreases ms@.len(),
            {
                let ghost t = ms_orig.len() - ms@.len();
                let ghost r_pre = r@;
                let u = ms.remove(0);
                let ghost uv = u@;
                proof {
                    assert(u == ms_orig[t]);
                    assert(ms@ =~= ms_orig.subrange(t + 1, ms_orig.len() as int));
                    assert(uv == msv[t]);
                }
                r.push(TreeItem::Unit { unit: u });
                proof {
                    assert(items_view(r@) =~= items_view(r_pre).push(
                        TreeItemV::Unit { unit: uv },
                    ));
                    assert(unit_items(msv.subrange(0, t + 1)) =~= unit_items(
                        msv.subrange(0, t),
                    ).push(TreeItemV::Unit { unit: uv }));
                    assert((after_header + unit_items(msv.subrange(0, t))).push(
                        TreeItemV::Unit { unit: uv },
                    ) =~= after_header + unit_items(msv.subrange(0, t)).push(
                        TreeItemV::Unit { unit: uv },
                    ));
                    assert(items_view(r@) =~= after_header + unit_items(
                        msv.subrange(0, t + 1),
                    ));
                }
            }
            proof {
                assert(msv.subrange(0, msv.len() as int) =~= msv);
                let block = group_block(units_view(units@), cur_keys.last(), names_view(collapsed@));
                assert(block =~= seq![
                    TreeItemV::Group {
                        name: cur_keys.last(),
                        count: msv.len() as int,
                        active: count_active(msv),
                    },
                ] + unit_items(msv));
                assert(items_view(r@) =~= tree_of(
                    units_view(units@),
                    cur_keys,
                    names_view(collapsed@),
                ));
            }
        } else {
            proof {
                let block = group_block(units_view(units@), cur_keys.last(), names_view(collapsed@));
                assert(block =~= seq![
                    TreeItemV::Group {
                        name: cur_keys.last(),
                        count: units_view(ms@).len() as int,
                        active: count_active(units_view(ms@)),
                    },
                ]);
                assert(items_view(r@) =~= tree_of(
                    units_view(units@),
                    cur_keys,
                    names_view(collapsed@),
                ));
            }
        }
        i = i + 1;
    }
    proof {
        assert(keys@.subrange(0, kl as int) =~= keys@);
    }
    r
}

} // verus!
