//! The alarm lists service: every alarm list with the devices that report to it.

use vstd::prelude::*;
use crate::datetime::{Timestamp, datetime_to_timestamp, timestamp_of};
use crate::error::{Code, DataStoreError, Status, data_store_failure_message, status_is};
use crate::keyed::{
    first_index, lemma_first_index_bounds, lemma_first_index_found, lemma_sum_push,
    lemma_sum_update, lemma_with_key_insert, lemma_with_key_none, lemma_with_key_push, sum,
    with_key,
};
use crate::row::{DataRow, ParameterView, ParameterizedQuery, row_datetime, row_int, row_text};

verus! {

broadcast use vstd::seq_lib::to_multiset_insert, vstd::seq_lib::to_multiset_contains;

/// The devices and all lists, each device under the list directly assigned to it or,
/// where it has none, under the list of its node.
pub const ALARM_LISTS_QUERY: &'static str = "
            SELECT DISTINCT
              l.list_number, 
              l.name AS list_name,
              l.long_name, 
              l.description, 
              l.modify_date, 
              l.modify_user_name, 
              d.name AS device_name
            FROM 
              accdb.alarm_block b
              INNER JOIN
                accdb.device d
                ON
                  d.di = b.di
              INNER JOIN 
                hendricks.alarm_list_nodes n 
                ON 
                  d.trunk = n.trunk 
                AND 
                  d.node = n.node
              INNER JOIN
                hendricks.alarm_list_info l
                ON
                  CASE
                    WHEN d.alarm_list_id > 0 THEN d.alarm_list_id = l.list_number
                    ELSE n.list_number = l.list_number
                  END             
            ORDER BY 
              l.list_number, 
              d.name
            ;
            ";

/// An alarm list and the devices that belong to it.
#[derive(Debug)]
pub struct AlarmList {
    pub list_number: i32,
    pub name: String,
    pub long_name: String,
    pub description: String,
    pub modify_date: Option<Timestamp>,
    pub modify_user_name: String,
    pub member_devices: Vec<String>,
}

/// What an `AlarmList` holds, with its texts as character sequences.
pub struct AlarmListView {
    pub list_number: i32,
    pub name: Seq<char>,
    pub long_name: Seq<char>,
    pub description: Seq<char>,
    pub modify_date: Option<Timestamp>,
    pub modify_user_name: Seq<char>,
    pub member_devices: Seq<Seq<char>>,
}

impl View for AlarmList {
    type V = AlarmListView;

    open spec fn view(&self) -> AlarmListView {
        AlarmListView {
            list_number: self.list_number,
            name: self.name@,
            long_name: self.long_name@,
            description: self.description@,
            modify_date: self.modify_date,
            modify_user_name: self.modify_user_name@,
            member_devices: self.member_devices@.map_values(|d: String| d@),
        }
    }
}

/// The reply of the service: every alarm list.
#[derive(Debug)]
pub struct AlarmLists {
    pub alarm_lists: Vec<AlarmList>,
}

pub open spec fn list_views(ls: Seq<AlarmList>) -> Seq<AlarmListView> {
    ls.map_values(|l: AlarmList| l@)
}

pub open spec fn list_numbers(ls: Seq<AlarmListView>) -> Seq<i32> {
    ls.map_values(|l: AlarmListView| l.list_number)
}

/// The list that a row names, without devices, or the details of the first column
/// that cannot be read (number, name, long name, description, modification date,
/// modifying user).
pub open spec fn row_list(row: DataRow) -> Result<AlarmListView, Seq<char>> {
    match row_int(row, "list_number"@) {
        Err(e) => Err(e),
        Ok(list_number) => match row_text(row, "list_name"@) {
            Err(e) => Err(e),
            Ok(name) => match row_text(row, "long_name"@) {
                Err(e) => Err(e),
                Ok(long_name) => match row_text(row, "description"@) {
                    Err(e) => Err(e),
                    Ok(description) => match row_datetime(row, "modify_date"@) {
                        Err(e) => Err(e),
                        Ok(modify_date) => match row_text(row, "modify_user_name"@) {
                            Err(e) => Err(e),
                            Ok(modify_user_name) => Ok(
                                AlarmListView {
                                    list_number,
                                    name,
                                    long_name,
                                    description,
                                    modify_date: Some(timestamp_of(modify_date)),
                                    modify_user_name,
                                    member_devices: Seq::empty(),
                                },
                            ),
                        },
                    },
                },
            },
        },
    }
}

/// The list read from a row is that row's columns: the number, the name, the long
/// name, the description, the modification date as a timestamp and the modifying user,
/// with no devices yet; it is read exactly where all six columns can be read.
pub proof fn lemma_list_columns(row: DataRow)
    ensures
        row_list(row) is Ok <==> {
            &&& row_int(row, "list_number"@) is Ok
            &&& row_text(row, "list_name"@) is Ok
            &&& row_text(row, "long_name"@) is Ok
            &&& row_text(row, "description"@) is Ok
            &&& row_datetime(row, "modify_date"@) is Ok
            &&& row_text(row, "modify_user_name"@) is Ok
        },
        row_list(row) matches Ok(l) ==> {
            &&& row_int(row, "list_number"@) == Ok::<i32, Seq<char>>(l.list_number)
            &&& row_text(row, "list_name"@) == Ok::<Seq<char>, Seq<char>>(l.name)
            &&& row_text(row, "long_name"@) == Ok::<Seq<char>, Seq<char>>(l.long_name)
            &&& row_text(row, "description"@) == Ok::<Seq<char>, Seq<char>>(l.description)
            &&& l.modify_date == Some(timestamp_of(row_datetime(row, "modify_date"@)->Ok_0))
            &&& row_text(row, "modify_user_name"@) == Ok::<Seq<char>, Seq<char>>(
                l.modify_user_name,
            )
            &&& l.member_devices.len() == 0
        },
{
}

/// The lists after one more row: the device joins the end of the list that the row
/// names, which is added at the end, as the row describes it, where it is missing.
pub open spec fn add_list_row(ls: Seq<AlarmListView>, list: AlarmListView, device: Seq<char>) -> Seq<
    AlarmListView,
> {
    let i = first_index(list_numbers(ls), list.list_number);
    if i < 0 {
        ls.push(AlarmListView { member_devices: seq![device], ..list })
    } else {
        ls.update(i, AlarmListView { member_devices: ls[i].member_devices.push(device), ..ls[i] })
    }
}

/// The lists that the rows describe, one per list number in the order in which
/// numbers first appear, each listing its devices in row order; or the details of the
/// first column that cannot be read (the list columns of a row before its device).
pub open spec fn gather_lists(rows: Seq<DataRow>) -> Result<Seq<AlarmListView>, Seq<char>>
    decreases rows.len(),
{
    if rows.len() == 0 {
        Ok(Seq::empty())
    } else {
        match gather_lists(rows.drop_last()) {
            Err(e) => Err(e),
            Ok(ls) => match row_list(rows.last()) {
                Err(e) => Err(e),
                Ok(list) => match row_text(rows.last(), "device_name"@) {
                    Err(e) => Err(e),
                    Ok(device) => Ok(add_list_row(ls, list, device)),
                },
            },
        }
    }
}

proof fn lemma_lists_error_persists(rows: Seq<DataRow>, k: int)
    requires
        0 <= k <= rows.len(),
        gather_lists(rows.take(k)) is Err,
    ensures
        gather_lists(rows) == gather_lists(rows.take(k)),
    decreases rows.len() - k,
{
    if k < rows.len() {
        assert(rows.take(k + 1).drop_last() =~= rows.take(k));
        lemma_lists_error_persists(rows, k + 1);
    } else {
        assert(rows.take(k) =~= rows);
    }
}

/// Every gathering of rows holds one list per number.
pub proof fn lemma_gather_lists_distinct(rows: Seq<DataRow>)
    ensures
        gather_lists(rows) matches Ok(ls) ==> list_numbers(ls).no_duplicates(),
    decreases rows.len(),
{
    if rows.len() > 0 {
        lemma_gather_lists_distinct(rows.drop_last());
        if let Ok(ls) = gather_lists(rows.drop_last()) {
            if let Ok(list) = row_list(rows.last()) {
                if let Ok(device) = row_text(rows.last(), "device_name"@) {
                    lemma_first_index_bounds(list_numbers(ls), list.list_number);
                    let i = first_index(list_numbers(ls), list.list_number);
                    let next = add_list_row(ls, list, device);
                    if i < 0 {
                        assert(list_numbers(next) =~= list_numbers(ls).push(list.list_number));
                    } else {
                        assert(list_numbers(next) =~= list_numbers(ls));
                    }
                }
            }
        }
    }
}

/// The list number that a row holds, or the details of why it cannot be read: the key
/// by which rows belong to lists.
pub open spec fn row_number() -> spec_fn(DataRow) -> Result<i32, Seq<char>> {
    |r: DataRow| row_int(r, "list_number"@)
}

/// The device name that a row holds (empty where it cannot be read).
pub open spec fn row_device(r: DataRow) -> Seq<char> {
    match row_text(r, "device_name"@) {
        Ok(d) => d,
        Err(_) => Seq::empty(),
    }
}

/// The device names that the rows hold, in row order.
pub open spec fn row_devices(rows: Seq<DataRow>) -> Seq<Seq<char>>
    decreases rows.len(),
{
    if rows.len() == 0 {
        Seq::empty()
    } else {
        row_devices(rows.drop_last()).push(row_device(rows.last()))
    }
}

/// The number of devices in each list.
pub open spec fn device_counts(ls: Seq<AlarmListView>) -> Seq<int> {
    ls.map_values(|l: AlarmListView| l.member_devices.len() as int)
}

/// In a successful gathering, the lists are those of the numbers that rows hold; each
/// list is described by the first row of its number, and lists as its devices the
/// device names of the rows of its number, in row order. So every row becomes exactly
/// one device of one list: the lists hold as many devices, all told, as there were
/// rows.
pub proof fn lemma_gather_lists_by_number(rows: Seq<DataRow>)
    ensures
        gather_lists(rows) matches Ok(ls) ==> {
            &&& forall|n: i32|
                #[trigger] list_numbers(ls).contains(n) <==> with_key(rows, row_number(), Ok(n)).len()
                    > 0
            &&& forall|i: int|
                0 <= i < ls.len() ==> (#[trigger] ls[i]).member_devices == row_devices(
                    with_key(rows, row_number(), Ok(ls[i].list_number)),
                )
            &&& forall|i: int|
                0 <= i < ls.len() ==> row_list(
                    with_key(rows, row_number(), Ok((#[trigger] ls[i]).list_number))[0],
                ) == Ok::<AlarmListView, Seq<char>>(
                    AlarmListView { member_devices: Seq::empty(), ..ls[i] },
                )
            &&& sum(device_counts(ls)) == rows.len()
        },
    decreases rows.len(),
{
    if rows.len() > 0 {
        let d = rows.drop_last();
        let last = rows.last();
        lemma_gather_lists_by_number(d);
        lemma_gather_lists_distinct(d);
        if let Ok(ls) = gather_lists(rows) {
            let prev = gather_lists(d)->Ok_0;
            let list = row_list(last)->Ok_0;
            let device = row_text(last, "device_name"@)->Ok_0;
            let number = list.list_number;
            assert(row_number()(last) == Ok::<i32, Seq<char>>(number));
            assert(ls == add_list_row(prev, list, device));
            assert(row_device(last) == device);
            lemma_first_index_bounds(list_numbers(prev), number);
            let i = first_index(list_numbers(prev), number);
            let w = with_key(d, row_number(), Ok::<i32, Seq<char>>(number));
            assert(with_key(rows, row_number(), Ok::<i32, Seq<char>>(number)) == w.push(last));
            assert(w.push(last).drop_last() =~= w);
            assert(row_devices(w.push(last)) == row_devices(w).push(device));
            assert forall|n: i32| n != number implies with_key(
                rows,
                row_number(),
                Ok::<i32, Seq<char>>(n),
            ) == with_key(d, row_number(), Ok::<i32, Seq<char>>(n)) by {}
            if i < 0 {
                assert(!list_numbers(prev).contains(number));
                assert(w.len() == 0);
                assert(w =~= Seq::<DataRow>::empty());
                assert(row_devices(w) =~= Seq::<Seq<char>>::empty());
                assert(list_numbers(ls) =~= list_numbers(prev).push(number));
                assert(device_counts(ls) =~= device_counts(prev).push(1));
                lemma_sum_push(device_counts(prev), 1);
                assert forall|n: i32| #[trigger] list_numbers(ls).contains(n) <==> with_key(
                    rows,
                    row_number(),
                    Ok(n),
                ).len() > 0 by {
                    if n != number {
                        if list_numbers(prev).contains(n) {
                            let m = choose|m: int|
                                0 <= m < list_numbers(prev).len() && list_numbers(prev)[m] == n;
                            assert(list_numbers(ls)[m] == n);
                        }
                        if list_numbers(ls).contains(n) {
                            let m = choose|m: int|
                                0 <= m < list_numbers(ls).len() && list_numbers(ls)[m] == n;
                            assert(m < prev.len());
                            assert(list_numbers(prev)[m] == n);
                        }
                    } else {
                        assert(list_numbers(ls)[prev.len() as int] == n);
                    }
                }
                assert forall|j: int| 0 <= j < ls.len() implies {
                    &&& (#[trigger] ls[j]).member_devices == row_devices(
                        with_key(rows, row_number(), Ok(ls[j].list_number)),
                    )
                    &&& row_list(with_key(rows, row_number(), Ok(ls[j].list_number))[0])
                        == Ok::<AlarmListView, Seq<char>>(
                        AlarmListView { member_devices: Seq::empty(), ..ls[j] },
                    )
                } by {
                    if j < prev.len() {
                        assert(ls[j] == prev[j]);
                        assert(list_numbers(prev)[j] == prev[j].list_number);
                        assert(prev[j].list_number != number);
                    } else {
                        assert(ls[j].member_devices =~= row_devices(w).push(device));
                        assert(w.push(last)[0] == last);
                        assert(AlarmListView { member_devices: Seq::empty(), ..ls[j] } == list);
                    }
                }
            } else {
                assert(list_numbers(ls) =~= list_numbers(prev));
                assert(list_numbers(prev)[i] == number);
                assert(device_counts(ls) =~= device_counts(prev).update(
                    i,
                    (prev[i].member_devices.len() + 1) as int,
                ));
                lemma_sum_update(device_counts(prev), i, (prev[i].member_devices.len() + 1) as int);
                assert forall|n: i32| #[trigger] list_numbers(ls).contains(n) <==> with_key(
                    rows,
                    row_number(),
                    Ok(n),
                ).len() > 0 by {
                    if n == number {
                        assert(list_numbers(prev).contains(number));
                    }
                }
                assert forall|j: int| 0 <= j < ls.len() implies {
                    &&& (#[trigger] ls[j]).member_devices == row_devices(
                        with_key(rows, row_number(), Ok(ls[j].list_number)),
                    )
                    &&& row_list(with_key(rows, row_number(), Ok(ls[j].list_number))[0])
                        == Ok::<AlarmListView, Seq<char>>(
                        AlarmListView { member_devices: Seq::empty(), ..ls[j] },
                    )
                } by {
                    if j != i {
                        assert(ls[j] == prev[j]);
                        assert(list_numbers(prev)[j] == prev[j].list_number);
                        assert(list_numbers(prev)[j] != list_numbers(prev)[i]);
                    } else {
                        assert(prev[i].member_devices == row_devices(w));
                        assert(list_numbers(prev).contains(number));
                        assert(w.len() > 0);
                        assert(w.push(last)[0] == w[0]);
                        assert(AlarmListView { member_devices: Seq::empty(), ..ls[j] }
                            == AlarmListView { member_devices: Seq::empty(), ..prev[i] });
                    }
                }
            }
        }
    } else {
        assert(device_counts(Seq::<AlarmListView>::empty()) =~= Seq::<int>::empty());
    }
}

/// Reads the list columns of a row.
fn read_list(row: &DataRow) -> (r: Result<AlarmList, DataStoreError>)
    ensures
        r is Ok <==> row_list(*row) is Ok,
        r matches Ok(l) ==> row_list(*row) == Ok::<AlarmListView, Seq<char>>(l@),
        r matches Err(e) ==> row_list(*row) == Err::<AlarmListView, Seq<char>>(e.spec_details()),
{
    let list_number = match row.get_int("list_number") {
        Ok(v) => v,
        Err(e) => return Err(e),
    };
    let name = match row.get_str("list_name") {
        Ok(v) => v,
        Err(e) => return Err(e),
    };
    let long_name = match row.get_str("long_name") {
        Ok(v) => v,
        Err(e) => return Err(e),
    };
    let description = match row.get_str("description") {
        Ok(v) => v,
        Err(e) => return Err(e),
    };
    let modify_date = match row.get_datetime("modify_date") {
        Ok(v) => datetime_to_timestamp(v),
        Err(e) => return Err(e),
    };
    let modify_user_name = match row.get_str("modify_user_name") {
        Ok(v) => v,
        Err(e) => return Err(e),
    };
    let list = AlarmList {
        list_number,
        name,
        long_name,
        description,
        modify_date,
        modify_user_name,
        member_devices: Vec::new(),
    };
    assert(list@.member_devices =~= Seq::<Seq<char>>::empty());
    Ok(list)
}

/// The index of the list numbered `number`, or the number of lists where there is none.
fn find_list(lists: &Vec<AlarmList>, number: i32) -> (i: usize)
    ensures
        i <= lists.len(),
        i == lists.len() ==> first_index(list_numbers(list_views(lists@)), number) == -1,
        i < lists.len() ==> first_index(list_numbers(list_views(lists@)), number) == i,
{
    let ghost numbers = list_numbers(list_views(lists@));
    let mut i: usize = 0;
    while i < lists.len()
        invariant
            i <= lists.len(),
            numbers == list_numbers(list_views(lists@)),
            numbers.len() == lists.len(),
            forall|j: int| 0 <= j < i ==> numbers[j] != number,
        decreases lists.len() - i,
    {
        assert(numbers[i as int] == lists@[i as int].list_number);
        if lists[i].list_number == number {
            proof {
                lemma_first_index_found(numbers, number, i as int);
            }
            return i;
        }
        i = i + 1;
    }
    proof {
        lemma_first_index_bounds(numbers, number);
    }
    i
}

/// Gathers the rows into one list per list number, in the order in which numbers
/// first appear, each listing its devices in row order. The first row that cannot be
/// read makes the whole gathering an error.
pub fn gather_list_rows(rows: Vec<DataRow>) -> (r: Result<Vec<AlarmList>, DataStoreError>)
    ensures
        r is Ok <==> gather_lists(rows@) is Ok,
        r matches Ok(ls) ==> gather_lists(rows@) == Ok::<Seq<AlarmListView>, Seq<char>>(
            list_views(ls@),
        ),
        r matches Err(e) ==> gather_lists(rows@) == Err::<Seq<AlarmListView>, Seq<char>>(
            e.spec_details(),
        ),
{
    let mut lists: Vec<AlarmList> = Vec::new();
    let mut i: usize = 0;
    assert(rows@.take(0) =~= Seq::<DataRow>::empty());
    assert(list_views(lists@) =~= Seq::<AlarmListView>::empty());
    while i < rows.len()
        invariant
            i <= rows@.len(),
            gather_lists(rows@.take(i as int)) == Ok::<Seq<AlarmListView>, Seq<char>>(
                list_views(lists@),
            ),
        decreases rows.len() - i,
    {
        assert(rows@.take(i + 1).drop_last() =~= rows@.take(i as int));
        assert(rows@.take(i + 1).last() == rows@[i as int]);
        let row = &rows[i];
        let list = match read_list(row) {
            Ok(v) => v,
            Err(e) => {
                proof {
                    lemma_lists_error_persists(rows@, i + 1);
                }
                return Err(e);
            },
        };
        let device = match row.get_str("device_name") {
            Ok(v) => v,
            Err(e) => {
                proof {
                    lemma_lists_error_persists(rows@, i + 1);
                }
                return Err(e);
            },
        };
        let ghost before = list_views(lists@);
        let ghost device_view = device@;
        let ghost list_view = list@;
        let idx = find_list(&lists, list.list_number);
        if idx == lists.len() {
            let mut entry = list;
            entry.member_devices.push(device);
            assert(entry@.member_devices =~= seq![device_view]);
            lists.push(entry);
            assert(list_views(lists@) =~= before.push(
                AlarmListView { member_devices: seq![device_view], ..list_view },
            ));
        } else {
            let mut entry = lists.remove(idx);
            let ghost old_entry = entry@;
            entry.member_devices.push(device);
            assert(entry@.member_devices =~= old_entry.member_devices.push(device_view));
            lists.insert(idx, entry);
            assert(list_views(lists@) =~= before.update(
                idx as int,
                AlarmListView {
                    member_devices: before[idx as int].member_devices.push(device_view),
                    ..before[idx as int]
                },
            ));
        }
        i = i + 1;
    }
    assert(rows@.take(rows@.len() as int) =~= rows@);
    Ok(lists)
}

/// The number of a list, the key by which lists are sorted.
pub open spec fn list_number_key() -> spec_fn(AlarmListView) -> i32 {
    |l: AlarmListView| l.list_number
}

/// Lists ordered by list number (lists with the same number may stand in any order).
pub open spec fn sorted_by_number(ls: Seq<AlarmListView>) -> bool {
    forall|i: int, j: int| 0 <= i < j < ls.len() ==> ls[i].list_number <= ls[j].list_number
}

/// Inserting `x` before the first list whose number is greater than `x`'s places it
/// after every list of its own number, so the lists of each number keep their order.
proof fn lemma_insert_keeps_number_order(
    s: Seq<AlarmListView>,
    x: AlarmListView,
    p: int,
    before: Seq<AlarmListView>,
)
    requires
        sorted_by_number(s),
        0 <= p <= s.len(),
        p < s.len() ==> x.list_number < s[p].list_number,
        forall|n: i32| with_key(s, list_number_key(), n) == with_key(before, list_number_key(), n),
    ensures
        forall|n: i32|
            #[trigger] with_key(s.insert(p, x), list_number_key(), n) == with_key(
                before.push(x),
                list_number_key(),
                n,
            ),
{
    assert forall|n: i32| #[trigger]
        with_key(s.insert(p, x), list_number_key(), n) == with_key(
            before.push(x),
            list_number_key(),
            n,
        ) by {
        lemma_with_key_insert(s, p, x, list_number_key(), n);
        lemma_with_key_push(before, x, list_number_key(), n);
        assert(with_key(s, list_number_key(), n) == with_key(before, list_number_key(), n));
        if x.list_number == n {
            let rest = s.skip(p);
            assert forall|i: int| 0 <= i < rest.len() implies (list_number_key())(
                #[trigger] rest[i],
            ) != n by {
                assert(rest[i] == s[p + i]);
                assert(s[p].list_number <= s[p + i].list_number);
            }
            lemma_with_key_none(rest, list_number_key(), n);
            assert(with_key(s.take(p), list_number_key(), n) + with_key(
                rest,
                list_number_key(),
                n,
            ) =~= with_key(s.take(p), list_number_key(), n));
            assert(with_key(s.insert(p, x), list_number_key(), n) =~= with_key(
                s,
                list_number_key(),
                n,
            ).push(x));
        } else {
            assert(with_key(s.take(p), list_number_key(), n) + Seq::<AlarmListView>::empty()
                + with_key(s.skip(p), list_number_key(), n) =~= with_key(
                s.take(p),
                list_number_key(),
                n,
            ) + with_key(s.skip(p), list_number_key(), n));
        }
    }
}

/// Sorts lists by list number; lists with the same number keep their order. Where no
/// two lists share a number, none do afterwards.
pub fn sort_lists(lists: Vec<AlarmList>) -> (sorted: Vec<AlarmList>)
    ensures
        list_views(sorted@).to_multiset() == list_views(lists@).to_multiset(),
        sorted_by_number(list_views(sorted@)),
        forall|n: i32|
            #[trigger] with_key(list_views(sorted@), list_number_key(), n) == with_key(
                list_views(lists@),
                list_number_key(),
                n,
            ),
        list_numbers(list_views(lists@)).no_duplicates() ==> list_numbers(
            list_views(sorted@),
        ).no_duplicates(),
{
    let ghost input = list_views(lists@);
    let mut rest = lists;
    let mut sorted: Vec<AlarmList> = Vec::new();
    let ghost mut k: int = 0;
    assert(input.take(0) =~= Seq::<AlarmListView>::empty());
    assert(input.skip(0) =~= input);
    assert(list_views(sorted@) =~= Seq::<AlarmListView>::empty());
    while rest.len() > 0
        invariant
            0 <= k <= input.len(),
            list_views(rest@) == input.skip(k),
            list_views(sorted@).to_multiset() == input.take(k).to_multiset(),
            sorted_by_number(list_views(sorted@)),
            forall|n: i32|
                with_key(list_views(sorted@), list_number_key(), n) == with_key(
                    input.take(k),
                    list_number_key(),
                    n,
                ),
            list_numbers(input).no_duplicates() ==> list_numbers(list_views(sorted@)).no_duplicates(),
        decreases rest.len(),
    {
        let ghost sv = list_views(sorted@);
        let ghost rv = list_views(rest@);
        assert(rv.len() > 0);
        assert(rv[0] == input[k]);
        let x = rest.remove(0);
        let ghost xv = x@;
        assert(xv == rv[0]);
        assert(list_views(rest@) =~= rv.drop_first());
        assert(input.skip(k).drop_first() =~= input.skip(k + 1));
        let mut p: usize = 0;
        loop
            invariant
                p <= sorted.len(),
                sv == list_views(sorted@),
                xv == x@,
                forall|j: int| 0 <= j < p ==> #[trigger] sv[j].list_number <= xv.list_number,
            ensures
                p <= sorted.len(),
                forall|j: int| 0 <= j < p ==> #[trigger] sv[j].list_number <= xv.list_number,
                p < sorted.len() ==> xv.list_number < sv[p as int].list_number,
            decreases sorted.len() - p,
        {
            if p == sorted.len() {
                break;
            }
            assert(sv[p as int] == sorted@[p as int]@);
            if x.list_number < sorted[p].list_number {
                break;
            }
            p = p + 1;
        }
        proof {
            lemma_insert_keeps_number_order(sv, xv, p as int, input.take(k));
            assert(input.take(k + 1) =~= input.take(k).push(xv));
            assert(input.take(k + 1) =~= input.take(k).insert(k, xv));
            if list_numbers(input).no_duplicates() {
                assert forall|j: int| 0 <= j < sv.len() implies sv[j].list_number
                    != xv.list_number by {
                    assert(sv.to_multiset().count(sv[j]) > 0);
                    assert(input.take(k).contains(sv[j]));
                    let m = choose|m: int| 0 <= m < k && input.take(k)[m] == sv[j];
                    assert(list_numbers(input)[m] == sv[j].list_number);
                    assert(list_numbers(input)[k] == xv.list_number);
                }
            }
        }
        sorted.insert(p, x);
        proof {
            let t = list_views(sorted@);
            assert(t =~= sv.insert(p as int, xv));
            assert forall|a: int, b: int| 0 <= a < b < t.len() implies t[a].list_number
                <= t[b].list_number by {
                let oa = if a < p { a } else { a - 1 };
                let ob = if b < p { b } else { b - 1 };
                if a != p as int && b != p as int {
                    assert(t[a] == sv[oa]);
                    assert(t[b] == sv[ob]);
                } else if a == p as int {
                    assert(t[b] == sv[ob]);
                    assert(sv[p as int].list_number <= sv[ob].list_number);
                } else {
                    assert(t[a] == sv[oa]);
                }
            }
            if list_numbers(input).no_duplicates() {
                let numbers = list_numbers(t);
                assert(numbers =~= list_numbers(sv).insert(p as int, xv.list_number));
                assert forall|a: int, b: int| 0 <= a < b < numbers.len() implies numbers[a]
                    != numbers[b] by {
                    let oa = if a < p { a } else { a - 1 };
                    let ob = if b < p { b } else { b - 1 };
                    if a != p as int && b != p as int {
                        assert(numbers[a] == list_numbers(sv)[oa]);
                        assert(numbers[b] == list_numbers(sv)[ob]);
                    } else if a == p as int {
                        assert(numbers[b] == sv[ob].list_number);
                    } else {
                        assert(numbers[a] == sv[oa].list_number);
                    }
                }
            }
            k = k + 1;
        }
    }
    assert(input.take(k) =~= input);
    sorted
}

/// Lists in strictly increasing order of list number.
pub open spec fn strictly_sorted_by_number(ls: Seq<AlarmListView>) -> bool {
    forall|i: int, j: int| 0 <= i < j < ls.len() ==> ls[i].list_number < ls[j].list_number
}

/// The lists that the rows describe, one per list number, ordered by list number;
/// each lists its devices in row order. The first row that cannot be read makes the
/// whole read an error.
pub fn lists_from_rows(rows: Vec<DataRow>) -> (r: Result<Vec<AlarmList>, DataStoreError>)
    ensures
        r is Ok <==> gather_lists(rows@) is Ok,
        r matches Ok(ls) ==> {
            &&& gather_lists(rows@) matches Ok(gathered)
            &&& list_views(ls@).to_multiset() == gathered.to_multiset()
            &&& strictly_sorted_by_number(list_views(ls@))
        },
        r matches Err(e) ==> gather_lists(rows@) == Err::<Seq<AlarmListView>, Seq<char>>(
            e.spec_details(),
        ),
{
    proof {
        lemma_gather_lists_distinct(rows@);
    }
    match gather_list_rows(rows) {
        Ok(gathered) => {
            let sorted = sort_lists(gathered);
            proof {
                let s = list_views(sorted@);
                assert forall|i: int, j: int| 0 <= i < j < s.len() implies s[i].list_number
                    < s[j].list_number by {
                    assert(list_numbers(s)[i] != list_numbers(s)[j]);
                }
            }
            Ok(sorted)
        },
        Err(e) => Err(e),
    }
}

/// The query behind `get_alarm_lists`, which binds nothing.
pub fn alarm_lists_query() -> (q: ParameterizedQuery)
    ensures
        q.query@ == ALARM_LISTS_QUERY@,
        q.bound() == Seq::<ParameterView>::empty(),
{
    ParameterizedQuery::new(ALARM_LISTS_QUERY)
}

/// The reply to `get_alarm_lists` once the data store has run the lists query: the
/// lists ordered by number, or, where the query failed or a row cannot be read, the
/// status into which a data store error turns.
pub fn alarm_lists_reply(outcome: Result<Vec<DataRow>, DataStoreError>) -> (r: Result<
    AlarmLists,
    Status,
>)
    ensures
        r is Ok <==> (outcome matches Ok(rows) && gather_lists(rows@) is Ok),
        r matches Ok(reply) ==> outcome matches Ok(rows) && gather_lists(rows@) matches Ok(
            gathered,
        ) && list_views(reply.alarm_lists@).to_multiset() == gathered.to_multiset()
            && strictly_sorted_by_number(list_views(reply.alarm_lists@)),
        r matches Err(s) ==> status_is(s, Code::Internal, data_store_failure_message()),
{
    let lists = match outcome {
        Ok(rows) => lists_from_rows(rows),
        Err(e) => Err(e),
    };
    match lists {
        Ok(alarm_lists) => Ok(AlarmLists { alarm_lists }),
        Err(e) => Err(e.to_status()),
    }
}

} // verus!
