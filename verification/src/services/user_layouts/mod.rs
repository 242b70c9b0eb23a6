//! The user layouts service: for each user, the top-level alarm groups that appear as
//! categories on that user's alarm display.

use vstd::prelude::*;
use crate::error::{Code, DataStoreError, Status, status_is};
use crate::keyed::{
    first_index, lemma_first_index_bounds, lemma_first_index_found, lemma_sum_push,
    lemma_sum_update, lemma_with_key_insert, lemma_with_key_none,
    lemma_with_key_push, sum, with_key,
};
use crate::row::{DataRow, ParameterView, ParameterizedQuery, row_text};
use crate::text::{
    lemma_str_lt_irreflexive, lemma_str_lt_total, lemma_str_lt_transitive, str_less, str_lt,
};

pub mod queries;

use queries::GET_ALL_LAYOUTS_QUERY;

verus! {

broadcast use vstd::seq_lib::to_multiset_insert, vstd::seq_lib::to_multiset_contains;

/// The alarm groups that one user shows as categories.
#[derive(Debug)]
pub struct UserLayout {
    pub user_name: String,
    pub groups: Vec<String>,
}

/// What a `UserLayout` holds, with its texts as character sequences.
pub struct UserLayoutView {
    pub user_name: Seq<char>,
    pub groups: Seq<Seq<char>>,
}

impl View for UserLayout {
    type V = UserLayoutView;

    open spec fn view(&self) -> UserLayoutView {
        UserLayoutView {
            user_name: self.user_name@,
            groups: self.groups@.map_values(|g: String| g@),
        }
    }
}

/// The reply of the service: every user's layout.
#[derive(Debug)]
pub struct UserLayouts {
    pub layouts: Vec<UserLayout>,
}

pub open spec fn layout_views(ls: Seq<UserLayout>) -> Seq<UserLayoutView> {
    ls.map_values(|l: UserLayout| l@)
}

pub open spec fn user_names(ls: Seq<UserLayoutView>) -> Seq<Seq<char>> {
    ls.map_values(|l: UserLayoutView| l.user_name)
}

/// The layouts after one more row, of user `user` and group `group`: the group joins
/// the end of the user's layout, which is created at the end where it is missing.
pub open spec fn add_layout_row(ls: Seq<UserLayoutView>, user: Seq<char>, group: Seq<char>) -> Seq<
    UserLayoutView,
> {
    let i = first_index(user_names(ls), user);
    if i < 0 {
        ls.push(UserLayoutView { user_name: user, groups: seq![group] })
    } else {
        ls.update(i, UserLayoutView { user_name: ls[i].user_name, groups: ls[i].groups.push(group) })
    }
}

/// The layouts that the rows describe, one per user in the order in which users first
/// appear, each listing its groups in row order; or the details of the first column
/// that cannot be read (the user name of a row before its group name).
pub open spec fn gather_layouts(rows: Seq<DataRow>) -> Result<Seq<UserLayoutView>, Seq<char>>
    decreases rows.len(),
{
    if rows.len() == 0 {
        Ok(Seq::empty())
    } else {
        match gather_layouts(rows.drop_last()) {
            Err(e) => Err(e),
            Ok(ls) => match row_text(rows.last(), "user_name"@) {
                Err(e) => Err(e),
                Ok(user) => match row_text(rows.last(), "group_name"@) {
                    Err(e) => Err(e),
                    Ok(group) => Ok(add_layout_row(ls, user, group)),
                },
            },
        }
    }
}

/// The user name of a layout, the key by which layouts are sorted.
pub open spec fn layout_user() -> spec_fn(UserLayoutView) -> Seq<char> {
    |l: UserLayoutView| l.user_name
}

/// Layouts ordered by user name (layouts of the same user may stand in any order).
pub open spec fn sorted_by_user(ls: Seq<UserLayoutView>) -> bool {
    forall|i: int, j: int| 0 <= i < j < ls.len() ==> !str_lt(ls[j].user_name, ls[i].user_name)
}

/// Layouts in strictly increasing order of user name.
pub open spec fn strictly_sorted_by_user(ls: Seq<UserLayoutView>) -> bool {
    forall|i: int, j: int| 0 <= i < j < ls.len() ==> str_lt(ls[i].user_name, ls[j].user_name)
}

proof fn lemma_gather_error_persists(rows: Seq<DataRow>, k: int)
    requires
        0 <= k <= rows.len(),
        gather_layouts(rows.take(k)) is Err,
    ensures
        gather_layouts(rows) == gather_layouts(rows.take(k)),
    decreases rows.len() - k,
{
    if k < rows.len() {
        assert(rows.take(k + 1).drop_last() =~= rows.take(k));
        lemma_gather_error_persists(rows, k + 1);
    } else {
        assert(rows.take(k) =~= rows);
    }
}

/// Adding a row keeps one layout per user.
proof fn lemma_add_layout_row_distinct(ls: Seq<UserLayoutView>, user: Seq<char>, group: Seq<char>)
    requires
        user_names(ls).no_duplicates(),
    ensures
        user_names(add_layout_row(ls, user, group)).no_duplicates(),
        user_names(add_layout_row(ls, user, group)).contains(user),
{
    lemma_first_index_bounds(user_names(ls), user);
    let i = first_index(user_names(ls), user);
    let next = add_layout_row(ls, user, group);
    if i < 0 {
        assert(user_names(next) =~= user_names(ls).push(user));
        assert(user_names(next)[ls.len() as int] == user);
    } else {
        assert(user_names(next) =~= user_names(ls));
    }
}

/// Every gathering of rows holds one layout per user.
pub proof fn lemma_gather_layouts_distinct(rows: Seq<DataRow>)
    ensures
        gather_layouts(rows) matches Ok(ls) ==> user_names(ls).no_duplicates(),
    decreases rows.len(),
{
    if rows.len() > 0 {
        lemma_gather_layouts_distinct(rows.drop_last());
        if let Ok(ls) = gather_layouts(rows.drop_last()) {
            if let Ok(user) = row_text(rows.last(), "user_name"@) {
                if let Ok(group) = row_text(rows.last(), "group_name"@) {
                    lemma_add_layout_row_distinct(ls, user, group);
                }
            }
        }
    }
}

/// The number of group entries in each layout.
pub open spec fn group_counts(ls: Seq<UserLayoutView>) -> Seq<int> {
    ls.map_values(|l: UserLayoutView| l.groups.len() as int)
}

/// Every row of a successful gathering becomes exactly one group entry of one layout:
/// the layouts hold as many group entries, all told, as there were rows.
pub proof fn lemma_gather_layouts_keeps_every_row(rows: Seq<DataRow>)
    ensures
        gather_layouts(rows) matches Ok(ls) ==> sum(group_counts(ls)) == rows.len(),
    decreases rows.len(),
{
    if rows.len() == 0 {
        assert(group_counts(Seq::<UserLayoutView>::empty()) =~= Seq::<int>::empty());
    } else {
        lemma_gather_layouts_keeps_every_row(rows.drop_last());
        if let Ok(ls) = gather_layouts(rows.drop_last()) {
            if let Ok(user) = row_text(rows.last(), "user_name"@) {
                if let Ok(group) = row_text(rows.last(), "group_name"@) {
                    lemma_first_index_bounds(user_names(ls), user);
                    let i = first_index(user_names(ls), user);
                    if i < 0 {
                        assert(group_counts(add_layout_row(ls, user, group)) =~= group_counts(
                            ls,
                        ).push(1));
                        lemma_sum_push(group_counts(ls), 1);
                    } else {
                        assert(group_counts(add_layout_row(ls, user, group)) =~= group_counts(
                            ls,
                        ).update(i, (ls[i].groups.len() + 1) as int));
                        lemma_sum_update(group_counts(ls), i, (ls[i].groups.len() + 1) as int);
                    }
                }
            }
        }
    }
}

/// The index of the layout of `user`, or the number of layouts where there is none.
fn find_user(layouts: &Vec<UserLayout>, user: &String) -> (i: usize)
    ensures
        i <= layouts.len(),
        i == layouts.len() ==> first_index(user_names(layout_views(layouts@)), user@) == -1,
        i < layouts.len() ==> first_index(user_names(layout_views(layouts@)), user@) == i,
{
    let ghost names = user_names(layout_views(layouts@));
    let mut i: usize = 0;
    while i < layouts.len()
        invariant
            i <= layouts.len(),
            names == user_names(layout_views(layouts@)),
            names.len() == layouts.len(),
            forall|j: int| 0 <= j < i ==> names[j] != user@,
        decreases layouts.len() - i,
    {
        assert(names[i as int] == layouts@[i as int].user_name@);
        if layouts[i].user_name == *user {
            proof {
                lemma_first_index_found(names, user@, i as int);
            }
            return i;
        }
        i = i + 1;
    }
    proof {
        lemma_first_index_bounds(names, user@);
    }
    i
}

/// Gathers the rows into one layout per user, in the order in which users first
/// appear, each listing its groups in row order. The first row that cannot be read
/// makes the whole gathering an error.
pub fn gather_layout_rows(rows: Vec<DataRow>) -> (r: Result<Vec<UserLayout>, DataStoreError>)
    ensures
        r is Ok <==> gather_layouts(rows@) is Ok,
        r matches Ok(ls) ==> gather_layouts(rows@) == Ok::<Seq<UserLayoutView>, Seq<char>>(
            layout_views(ls@),
        ),
        r matches Err(e) ==> gather_layouts(rows@) == Err::<Seq<UserLayoutView>, Seq<char>>(
            e.spec_details(),
        ),
{
    let mut layouts: Vec<UserLayout> = Vec::new();
    let mut i: usize = 0;
    assert(rows@.take(0) =~= Seq::<DataRow>::empty());
    assert(layout_views(layouts@) =~= Seq::<UserLayoutView>::empty());
    while i < rows.len()
        invariant
            i <= rows@.len(),
            gather_layouts(rows@.take(i as int)) == Ok::<Seq<UserLayoutView>, Seq<char>>(
                layout_views(layouts@),
            ),
        decreases rows.len() - i,
    {
        assert(rows@.take(i + 1).drop_last() =~= rows@.take(i as int));
        assert(rows@.take(i + 1).last() == rows@[i as int]);
        let row = &rows[i];
        let user = match row.get_str("user_name") {
            Ok(v) => v,
            Err(e) => {
                proof {
                    lemma_gather_error_persists(rows@, i + 1);
                }
                return Err(e);
            },
        };
        let group = match row.get_str("group_name") {
            Ok(v) => v,
            Err(e) => {
                proof {
                    lemma_gather_error_persists(rows@, i + 1);
                }
                return Err(e);
            },
        };
        let ghost before = layout_views(layouts@);
        let ghost group_view = group@;
        let idx = find_user(&layouts, &user);
        if idx == layouts.len() {
            let mut groups: Vec<String> = Vec::new();
            groups.push(group);
            let ghost user_view = user@;
            layouts.push(UserLayout { user_name: user, groups });
            assert(layouts@.last()@.groups =~= seq![group_view]);
            assert(layout_views(layouts@) =~= before.push(
                UserLayoutView { user_name: user_view, groups: seq![group_view] },
            ));
        } else {
            let mut entry = layouts.remove(idx);
            let ghost old_groups = entry.groups@.map_values(|g: String| g@);
            entry.groups.push(group);
            assert(entry.groups@.map_values(|g: String| g@) =~= old_groups.push(group_view));
            layouts.insert(idx, entry);
            assert(layout_views(layouts@) =~= before.update(
                idx as int,
                UserLayoutView {
                    user_name: before[idx as int].user_name,
                    groups: before[idx as int].groups.push(group_view),
                },
            ));
        }
        i = i + 1;
    }
    assert(rows@.take(rows@.len() as int) =~= rows@);
    Ok(layouts)
}

/// Inserting `x` at the first position whose user name comes after `x`'s keeps the
/// layouts sorted.
proof fn lemma_insert_sorted(s: Seq<UserLayoutView>, x: UserLayoutView, p: int)
    requires
        sorted_by_user(s),
        0 <= p <= s.len(),
        forall|j: int| 0 <= j < p ==> !str_lt(x.user_name, #[trigger] s[j].user_name),
        p < s.len() ==> str_lt(x.user_name, s[p].user_name),
    ensures
        sorted_by_user(s.insert(p, x)),
{
    let t = s.insert(p, x);
    assert forall|i: int, j: int| 0 <= i < j < t.len() implies !str_lt(
        t[j].user_name,
        t[i].user_name,
    ) by {
        if i == p {
            // t[j] == s[j - 1] with j - 1 >= p, and s[p] comes after x.
            if str_lt(s[j - 1].user_name, x.user_name) {
                lemma_str_lt_transitive(s[j - 1].user_name, x.user_name, s[p].user_name);
                if j - 1 == p {
                    lemma_str_lt_irreflexive(s[p].user_name);
                }
            }
        } else if j == p {
            assert(t[i] == s[i]);
        } else {
            let oi = if i < p { i } else { i - 1 };
            let oj = if j < p { j } else { j - 1 };
            assert(t[i] == s[oi]);
            assert(t[j] == s[oj]);
        }
    }
}

/// Inserting `x` before the first layout whose user name comes after `x`'s places it
/// after every layout of its own user, so each user's layouts keep their order.
proof fn lemma_insert_keeps_user_order(
    s: Seq<UserLayoutView>,
    x: UserLayoutView,
    p: int,
    before: Seq<UserLayoutView>,
)
    requires
        sorted_by_user(s),
        0 <= p <= s.len(),
        p < s.len() ==> str_lt(x.user_name, s[p].user_name),
        forall|u: Seq<char>| with_key(s, layout_user(), u) == with_key(before, layout_user(), u),
    ensures
        forall|u: Seq<char>|
            #[trigger] with_key(s.insert(p, x), layout_user(), u) == with_key(
                before.push(x),
                layout_user(),
                u,
            ),
{
    assert forall|u: Seq<char>| #[trigger]
        with_key(s.insert(p, x), layout_user(), u) == with_key(before.push(x), layout_user(), u) by {
        lemma_with_key_insert(s, p, x, layout_user(), u);
        lemma_with_key_push(before, x, layout_user(), u);
        assert(with_key(s, layout_user(), u) == with_key(before, layout_user(), u));
        if x.user_name == u {
            let rest = s.skip(p);
            assert forall|i: int| 0 <= i < rest.len() implies (layout_user())(#[trigger] rest[i])
                != u by {
                assert(rest[i] == s[p + i]);
                if s[p + i].user_name == x.user_name {
                    if i == 0 {
                        lemma_str_lt_irreflexive(x.user_name);
                    } else {
                        assert(!str_lt(s[p + i].user_name, s[p].user_name));
                    }
                }
            }
            lemma_with_key_none(rest, layout_user(), u);
            assert(with_key(s.take(p), layout_user(), u) + with_key(rest, layout_user(), u)
                =~= with_key(s.take(p), layout_user(), u));
            assert(with_key(s.insert(p, x), layout_user(), u) =~= with_key(
                s,
                layout_user(),
                u,
            ).push(x));
        } else {
            assert(with_key(s.take(p), layout_user(), u) + Seq::<UserLayoutView>::empty()
                + with_key(s.skip(p), layout_user(), u) =~= with_key(s.take(p), layout_user(), u)
                + with_key(s.skip(p), layout_user(), u));
        }
    }
}

/// Sorts layouts by user name; layouts of the same user keep their order. Where no two
/// layouts share a user, none do afterwards.
pub fn sort_layouts(layouts: Vec<UserLayout>) -> (sorted: Vec<UserLayout>)
    ensures
        layout_views(sorted@).to_multiset() == layout_views(layouts@).to_multiset(),
        sorted_by_user(layout_views(sorted@)),
        forall|u: Seq<char>|
            #[trigger] with_key(layout_views(sorted@), layout_user(), u) == with_key(
                layout_views(layouts@),
                layout_user(),
                u,
            ),
        user_names(layout_views(layouts@)).no_duplicates() ==> user_names(
            layout_views(sorted@),
        ).no_duplicates(),
{
    let ghost input = layout_views(layouts@);
    let mut rest = layouts;
    let mut sorted: Vec<UserLayout> = Vec::new();
    let ghost mut k: int = 0;
    assert(input.take(0) =~= Seq::<UserLayoutView>::empty());
    assert(input.skip(0) =~= input);
    assert(layout_views(sorted@) =~= Seq::<UserLayoutView>::empty());
    while rest.len() > 0
        invariant
            0 <= k <= input.len(),
            layout_views(rest@) == input.skip(k),
            layout_views(sorted@).to_multiset() == input.take(k).to_multiset(),
            sorted_by_user(layout_views(sorted@)),
            forall|u: Seq<char>|
                with_key(layout_views(sorted@), layout_user(), u) == with_key(
                    input.take(k),
                    layout_user(),
                    u,
                ),
            user_names(input).no_duplicates() ==> user_names(layout_views(sorted@)).no_duplicates(),
        decreases rest.len(),
    {
        let ghost sv = layout_views(sorted@);
        let ghost rv = layout_views(rest@);
        assert(rv.len() > 0);
        assert(rv[0] == input[k]);
        let x = rest.remove(0);
        let ghost xv = x@;
        assert(xv == rv[0]);
        assert(layout_views(rest@) =~= rv.drop_first());
        assert(input.skip(k).drop_first() =~= input.skip(k + 1));
        let mut p: usize = 0;
        loop
            invariant
                p <= sorted.len(),
                sv == layout_views(sorted@),
                xv == x@,
                forall|j: int| 0 <= j < p ==> !str_lt(xv.user_name, #[trigger] sv[j].user_name),
            ensures
                p <= sorted.len(),
                forall|j: int| 0 <= j < p ==> !str_lt(xv.user_name, #[trigger] sv[j].user_name),
                p < sorted.len() ==> str_lt(xv.user_name, sv[p as int].user_name),
            decreases sorted.len() - p,
        {
            if p == sorted.len() {
                break;
            }
            assert(sv[p as int] == sorted@[p as int]@);
            if str_less(x.user_name.as_str(), sorted[p].user_name.as_str()) {
                break;
            }
            p = p + 1;
        }
        proof {
            lemma_insert_sorted(sv, xv, p as int);
            lemma_insert_keeps_user_order(sv, xv, p as int, input.take(k));
            assert(input.take(k + 1) =~= input.take(k).push(xv));
            assert(input.take(k + 1) =~= input.take(k).insert(k, xv));
            if user_names(input).no_duplicates() {
                assert forall|j: int| 0 <= j < sv.len() implies sv[j].user_name != xv.user_name by {
                    assert(sv.to_multiset().count(sv[j]) > 0);
                    assert(input.take(k).contains(sv[j]));
                    let m = choose|m: int| 0 <= m < k && input.take(k)[m] == sv[j];
                    assert(user_names(input)[m] == sv[j].user_name);
                    assert(user_names(input)[k] == xv.user_name);
                }
            }
        }
        sorted.insert(p, x);
        proof {
            assert(layout_views(sorted@) =~= sv.insert(p as int, xv));
            if user_names(input).no_duplicates() {
                let names = user_names(layout_views(sorted@));
                assert(names =~= user_names(sv).insert(p as int, xv.user_name));
                assert forall|a: int, b: int| 0 <= a < b < names.len() implies names[a]
                    != names[b] by {
                    let oa = if a < p { a } else { a - 1 };
                    let ob = if b < p { b } else { b - 1 };
                    if a != p as int && b != p as int {
                        assert(names[a] == user_names(sv)[oa]);
                        assert(names[b] == user_names(sv)[ob]);
                    } else if a == p as int {
                        assert(names[b] == sv[ob].user_name);
                    } else {
                        assert(names[a] == sv[oa].user_name);
                    }
                }
            }
            k = k + 1;
        }
    }
    assert(input.take(k) =~= input);
    sorted
}

/// Layouts ordered by user name, with no user twice, are in strictly increasing order.
proof fn lemma_sorted_distinct_is_strict(ls: Seq<UserLayoutView>)
    requires
        sorted_by_user(ls),
        user_names(ls).no_duplicates(),
    ensures
        strictly_sorted_by_user(ls),
{
    assert forall|i: int, j: int| 0 <= i < j < ls.len() implies str_lt(
        ls[i].user_name,
        ls[j].user_name,
    ) by {
        assert(user_names(ls)[i] != user_names(ls)[j]);
        lemma_str_lt_total(ls[i].user_name, ls[j].user_name);
    }
}

/// The layouts that answer the rows: the gathered layouts, one per user, in strictly
/// increasing order of user name.
pub open spec fn layouts_for(rows: Seq<DataRow>, ls: Seq<UserLayoutView>) -> bool {
    &&& gather_layouts(rows) matches Ok(gathered)
    &&& ls.to_multiset() == gathered.to_multiset()
    &&& strictly_sorted_by_user(ls)
}

/// The user name that a row holds, or the details of why it cannot be read: the key
/// by which rows belong to users.
pub open spec fn row_user() -> spec_fn(DataRow) -> Result<Seq<char>, Seq<char>> {
    |r: DataRow| row_text(r, "user_name"@)
}

/// The group name that a row holds (empty where it cannot be read).
pub open spec fn row_group(r: DataRow) -> Seq<char> {
    match row_text(r, "group_name"@) {
        Ok(g) => g,
        Err(_) => Seq::empty(),
    }
}

/// The group names that the rows hold, in row order.
pub open spec fn row_groups(rows: Seq<DataRow>) -> Seq<Seq<char>>
    decreases rows.len(),
{
    if rows.len() == 0 {
        Seq::empty()
    } else {
        row_groups(rows.drop_last()).push(row_group(rows.last()))
    }
}

/// Rows that all hold a readable user name and group name.
pub open spec fn rows_readable(rows: Seq<DataRow>) -> bool {
    forall|i: int|
        0 <= i < rows.len() ==> row_text(#[trigger] rows[i], "user_name"@) is Ok && row_text(
            rows[i],
            "group_name"@,
        ) is Ok
}

proof fn lemma_gather_ok_iff_readable(rows: Seq<DataRow>)
    ensures
        gather_layouts(rows) is Ok <==> rows_readable(rows),
    decreases rows.len(),
{
    if rows.len() > 0 {
        let d = rows.drop_last();
        lemma_gather_ok_iff_readable(d);
        if rows_readable(rows) {
            assert forall|i: int| 0 <= i < d.len() implies row_text(#[trigger] d[i], "user_name"@) is Ok
                && row_text(d[i], "group_name"@) is Ok by {
                assert(d[i] == rows[i]);
            }
            assert(rows[rows.len() - 1] == rows.last());
        }
        if gather_layouts(rows) is Ok {
            assert forall|i: int| 0 <= i < rows.len() implies row_text(
                #[trigger] rows[i],
                "user_name"@,
            ) is Ok && row_text(rows[i], "group_name"@) is Ok by {
                if i < d.len() {
                    assert(d[i] == rows[i]);
                }
            }
        }
    }
}

/// In a successful gathering, the users with a layout are the users with rows, and
/// each user's layout lists the group names of that user's rows, in row order.
pub proof fn lemma_gather_layouts_by_user(rows: Seq<DataRow>)
    ensures
        gather_layouts(rows) matches Ok(ls) ==> {
            &&& forall|u: Seq<char>|
                #[trigger] user_names(ls).contains(u) <==> with_key(rows, row_user(), Ok(u)).len()
                    > 0
            &&& forall|i: int|
                0 <= i < ls.len() ==> (#[trigger] ls[i]).groups == row_groups(
                    with_key(rows, row_user(), Ok(ls[i].user_name)),
                )
        },
    decreases rows.len(),
{
    if rows.len() > 0 {
        let d = rows.drop_last();
        let last = rows.last();
        lemma_gather_layouts_by_user(d);
        lemma_gather_layouts_distinct(d);
        if let Ok(ls) = gather_layouts(rows) {
            let prev = gather_layouts(d)->Ok_0;
            let user = row_text(last, "user_name"@)->Ok_0;
            let group = row_text(last, "group_name"@)->Ok_0;
            assert(ls == add_layout_row(prev, user, group));
            assert(row_group(last) == group);
            lemma_first_index_bounds(user_names(prev), user);
            let i = first_index(user_names(prev), user);
            let w = with_key(d, row_user(), Ok::<Seq<char>, Seq<char>>(user));
            assert(with_key(rows, row_user(), Ok::<Seq<char>, Seq<char>>(user)) == w.push(last));
            assert(w.push(last).drop_last() =~= w);
            assert(row_groups(w.push(last)) == row_groups(w).push(group));
            assert forall|u: Seq<char>| u != user implies with_key(
                rows,
                row_user(),
                Ok::<Seq<char>, Seq<char>>(u),
            ) == with_key(d, row_user(), Ok::<Seq<char>, Seq<char>>(u)) by {}
            if i < 0 {
                assert(!user_names(prev).contains(user));
                assert(w.len() == 0);
                assert(w =~= Seq::<DataRow>::empty());
                assert(row_groups(w) =~= Seq::<Seq<char>>::empty());
                assert(user_names(ls) =~= user_names(prev).push(user));
                assert forall|u: Seq<char>| #[trigger] user_names(ls).contains(u) <==> with_key(
                    rows,
                    row_user(),
                    Ok(u),
                ).len() > 0 by {
                    if u != user {
                        if user_names(prev).contains(u) {
                            let m = choose|m: int| 0 <= m < user_names(prev).len() && user_names(prev)[m] == u;
                            assert(user_names(ls)[m] == u);
                        }
                        if user_names(ls).contains(u) {
                            let m = choose|m: int| 0 <= m < user_names(ls).len() && user_names(ls)[m] == u;
                            assert(m < prev.len());
                            assert(user_names(prev)[m] == u);
                        }
                    } else {
                        assert(user_names(ls)[prev.len() as int] == u);
                    }
                }
                assert forall|j: int| 0 <= j < ls.len() implies (#[trigger] ls[j]).groups == row_groups(
                    with_key(rows, row_user(), Ok(ls[j].user_name)),
                ) by {
                    if j < prev.len() {
                        assert(ls[j] == prev[j]);
                        assert(user_names(prev)[j] == prev[j].user_name);
                        assert(prev[j].user_name != user);
                    } else {
                        assert(ls[j].groups =~= row_groups(w).push(group));
                    }
                }
            } else {
                assert(user_names(ls) =~= user_names(prev));
                assert(user_names(prev)[i] == user);
                assert forall|u: Seq<char>| #[trigger] user_names(ls).contains(u) <==> with_key(
                    rows,
                    row_user(),
                    Ok(u),
                ).len() > 0 by {
                    if u == user {
                        assert(user_names(prev).contains(user));
                    }
                }
                assert forall|j: int| 0 <= j < ls.len() implies (#[trigger] ls[j]).groups == row_groups(
                    with_key(rows, row_user(), Ok(ls[j].user_name)),
                ) by {
                    if j != i {
                        assert(ls[j] == prev[j]);
                        assert(user_names(prev)[j] == prev[j].user_name);
                        assert(user_names(prev)[j] != user_names(prev)[i]);
                    } else {
                        assert(prev[i].groups == row_groups(w));
                    }
                }
            }
        }
    }
}

/// A layout belongs to a successful gathering exactly where its user has rows and it
/// lists the group names of those rows, in row order.
proof fn lemma_gathered_layout_members(rows: Seq<DataRow>, x: UserLayoutView)
    ensures
        gather_layouts(rows) matches Ok(ls) ==> (ls.contains(x) <==> {
            &&& with_key(rows, row_user(), Ok(x.user_name)).len() > 0
            &&& x.groups == row_groups(with_key(rows, row_user(), Ok(x.user_name)))
        }),
{
    lemma_gather_layouts_by_user(rows);
    if let Ok(ls) = gather_layouts(rows) {
        if ls.contains(x) {
            let i = choose|i: int| 0 <= i < ls.len() && ls[i] == x;
            assert(user_names(ls)[i] == x.user_name);
            assert(user_names(ls).contains(x.user_name));
        }
        if with_key(rows, row_user(), Ok::<Seq<char>, Seq<char>>(x.user_name)).len() > 0
            && x.groups == row_groups(with_key(rows, row_user(), Ok(x.user_name))) {
            assert(user_names(ls).contains(x.user_name));
            let i = choose|i: int| 0 <= i < user_names(ls).len() && user_names(ls)[i] == x.user_name;
            assert(ls[i].user_name == x.user_name);
            assert(ls[i].groups == x.groups);
            assert(ls[i] == x);
        }
    }
}

/// Two strictly sorted sequences of layouts that hold the same layouts are equal.
proof fn lemma_sorted_same_members(a: Seq<UserLayoutView>, b: Seq<UserLayoutView>)
    requires
        strictly_sorted_by_user(a),
        strictly_sorted_by_user(b),
        forall|x: UserLayoutView| a.contains(x) <==> b.contains(x),
    ensures
        a == b,
    decreases a.len(),
{
    if a.len() == 0 {
        if b.len() > 0 {
            assert(b.contains(b[0]));
        }
        assert(a =~= b);
    } else {
        assert(a.contains(a[0]));
        let j = choose|j: int| 0 <= j < b.len() && b[j] == a[0];
        assert(b.contains(b[0]));
        let i = choose|i: int| 0 <= i < a.len() && a[i] == b[0];
        if j > 0 {
            assert(str_lt(b[0].user_name, b[j].user_name));
            if i > 0 {
                assert(str_lt(a[0].user_name, a[i].user_name));
                lemma_str_lt_total(a[0].user_name, a[i].user_name);
            } else {
                lemma_str_lt_irreflexive(a[0].user_name);
            }
        }
        assert(a[0] == b[0]);
        let ra = a.drop_first();
        let rb = b.drop_first();
        assert forall|x: UserLayoutView| ra.contains(x) <==> rb.contains(x) by {
            if ra.contains(x) {
                let m = choose|m: int| 0 <= m < ra.len() && ra[m] == x;
                assert(a[m + 1] == x);
                assert(str_lt(a[0].user_name, a[m + 1].user_name));
                lemma_str_lt_irreflexive(x.user_name);
                assert(a.contains(x));
                let n = choose|n: int| 0 <= n < b.len() && b[n] == x;
                assert(n != 0);
                assert(rb[n - 1] == x);
            }
            if rb.contains(x) {
                let m = choose|m: int| 0 <= m < rb.len() && rb[m] == x;
                assert(b[m + 1] == x);
                assert(str_lt(b[0].user_name, b[m + 1].user_name));
                lemma_str_lt_irreflexive(x.user_name);
                assert(b.contains(x));
                let n = choose|n: int| 0 <= n < a.len() && a[n] == x;
                assert(n != 0);
                assert(ra[n - 1] == x);
            }
        }
        lemma_sorted_same_members(ra, rb);
        assert(a =~= seq![a[0]] + ra);
        assert(b =~= seq![b[0]] + rb);
    }
}

proof fn lemma_readable_carries_over(a: Seq<DataRow>, b: Seq<DataRow>)
    requires
        rows_readable(a),
        a.to_multiset() == b.to_multiset(),
    ensures
        rows_readable(b),
{
    assert forall|i: int| 0 <= i < b.len() implies row_text(#[trigger] b[i], "user_name"@) is Ok
        && row_text(b[i], "group_name"@) is Ok by {
        assert(b.contains(b[i]));
        assert(b.to_multiset().count(b[i]) > 0);
        assert(a.to_multiset().count(b[i]) > 0);
        let m = choose|m: int| 0 <= m < a.len() && a[m] == b[i];
    }
}

/// The reply depends on each user's rows alone: a rearrangement of the rows of the
/// layouts query that keeps the rows of each user in their order (rows whose user name
/// cannot be read may move anywhere) leaves the gathering as successful as it was, so
/// that both replies are the same internal error or both succeed, and the layouts of
/// the two replies equal.
pub proof fn lemma_layouts_depend_on_each_users_rows(
    rows1: Seq<DataRow>,
    rows2: Seq<DataRow>,
    ls1: Seq<UserLayoutView>,
    ls2: Seq<UserLayoutView>,
)
    requires
        rows1.to_multiset() == rows2.to_multiset(),
        forall|u: Seq<char>|
            #[trigger] with_key(rows1, row_user(), Ok(u)) == with_key(rows2, row_user(), Ok(u)),
    ensures
        gather_layouts(rows1) is Ok <==> gather_layouts(rows2) is Ok,
        layouts_for(rows1, ls1) && layouts_for(rows2, ls2) ==> ls1 == ls2,
{
    lemma_gather_ok_iff_readable(rows1);
    lemma_gather_ok_iff_readable(rows2);
    if rows_readable(rows1) {
        lemma_readable_carries_over(rows1, rows2);
    }
    if rows_readable(rows2) {
        lemma_readable_carries_over(rows2, rows1);
    }
    if layouts_for(rows1, ls1) && layouts_for(rows2, ls2) {
        let g1 = gather_layouts(rows1)->Ok_0;
        let g2 = gather_layouts(rows2)->Ok_0;
        assert forall|x: UserLayoutView| ls1.contains(x) <==> ls2.contains(x) by {
            lemma_gathered_layout_members(rows1, x);
            lemma_gathered_layout_members(rows2, x);
            assert(with_key(rows1, row_user(), Ok::<Seq<char>, Seq<char>>(x.user_name)) == with_key(
                rows2,
                row_user(),
                Ok::<Seq<char>, Seq<char>>(x.user_name),
            ));
            assert(ls1.to_multiset().count(x) == g1.to_multiset().count(x));
            assert(ls2.to_multiset().count(x) == g2.to_multiset().count(x));
        }
        lemma_sorted_same_members(ls1, ls2);
    }
}

/// The layouts that the rows describe, one per user, ordered by user name; each lists
/// its groups in row order. The first row that cannot be read makes the whole read an
/// error.
pub fn layouts_from_rows(rows: Vec<DataRow>) -> (r: Result<Vec<UserLayout>, DataStoreError>)
    ensures
        r is Ok <==> gather_layouts(rows@) is Ok,
        r matches Ok(ls) ==> layouts_for(rows@, layout_views(ls@)),
        r matches Err(e) ==> gather_layouts(rows@) == Err::<Seq<UserLayoutView>, Seq<char>>(
            e.spec_details(),
        ),
{
    proof {
        lemma_gather_layouts_distinct(rows@);
    }
    match gather_layout_rows(rows) {
        Ok(gathered) => {
            let sorted = sort_layouts(gathered);
            proof {
                lemma_sorted_distinct_is_strict(layout_views(sorted@));
            }
            Ok(sorted)
        },
        Err(e) => Err(e),
    }
}

/// The query behind `get_user_layouts`, which binds nothing.
pub fn user_layouts_query() -> (q: ParameterizedQuery)
    ensures
        q.query@ == GET_ALL_LAYOUTS_QUERY@,
        q.bound() == Seq::<ParameterView>::empty(),
{
    ParameterizedQuery::new(GET_ALL_LAYOUTS_QUERY)
}

pub open spec fn layouts_failure_message() -> Seq<char> {
    "Failed to retrieve user layouts. See server logs for details."@
}

/// The reply to `get_user_layouts` once the data store has run the layouts query:
/// the layouts ordered by user name, or an internal error where the query failed or a
/// row cannot be read.
pub fn user_layouts_reply(outcome: Result<Vec<DataRow>, DataStoreError>) -> (r: Result<
    UserLayouts,
    Status,
>)
    ensures
        r is Ok <==> (outcome matches Ok(rows) && gather_layouts(rows@) is Ok),
        r matches Ok(reply) ==> outcome matches Ok(rows) && layouts_for(
            rows@,
            layout_views(reply.layouts@),
        ),
        r matches Err(s) ==> status_is(s, Code::Internal, layouts_failure_message()),
{
    let layouts = match outcome {
        Ok(rows) => layouts_from_rows(rows),
        Err(e) => Err(e),
    };
    match layouts {
        Ok(layouts) => Ok(UserLayouts { layouts }),
        Err(_) => Err(
            Status::internal("Failed to retrieve user layouts. See server logs for details."),
        ),
    }
}

} // verus!
