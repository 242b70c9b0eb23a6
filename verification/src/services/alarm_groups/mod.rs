//! The alarm groups service: the metadata of every alarm group, and the full content
//! of requested groups (the devices and nested groups that belong to each).

use vstd::prelude::*;
use crate::datetime::{Timestamp, datetime_to_timestamp, timestamp_of};
use crate::error::{Code, DataStoreError, Status, status_is};
use crate::keyed::{
    first_index, lemma_first_index_bounds, lemma_first_index_found, lemma_sum_push,
    lemma_sum_update, lemma_with_key_at_most_one, lemma_with_key_insert, lemma_with_key_none,
    lemma_with_key_push, lemma_with_key_two, sum, with_key,
};
use crate::row::{DataRow, ParameterView, ParameterizedQuery, QueryParameter, row_bool, row_datetime, row_text};
use crate::text::{
    decimal, decimal_string, lemma_str_lt_irreflexive, lemma_str_lt_total,
    lemma_str_lt_transitive, str_less, str_lt,
};

pub mod queries;

use queries::{ALL_GROUPS_METADATA_QUERY, GROUP_DETAILS_QUERY_HEAD, GROUP_DETAILS_QUERY_TAIL};

verus! {

broadcast use vstd::seq_lib::to_multiset_insert, vstd::seq_lib::to_multiset_contains;

/// What is known of an alarm group apart from its members.
#[derive(Debug)]
pub struct AlarmGroupMetadatum {
    pub name: String,
    pub description: String,
    pub updated_at: Option<Timestamp>,
    pub updated_by: String,
    pub is_user_category: bool,
}

/// What an `AlarmGroupMetadatum` holds, with its texts as character sequences.
pub struct MetadatumView {
    pub name: Seq<char>,
    pub description: Seq<char>,
    pub updated_at: Option<Timestamp>,
    pub updated_by: Seq<char>,
    pub is_user_category: bool,
}

impl View for AlarmGroupMetadatum {
    type V = MetadatumView;

    open spec fn view(&self) -> MetadatumView {
        MetadatumView {
            name: self.name@,
            description: self.description@,
            updated_at: self.updated_at,
            updated_by: self.updated_by@,
            is_user_category: self.is_user_category,
        }
    }
}

/// The metadata of all alarm groups.
#[derive(Debug)]
pub struct AlarmGroupMetadata {
    pub metadata: Vec<AlarmGroupMetadatum>,
}

pub open spec fn metadata_views(ms: Seq<AlarmGroupMetadatum>) -> Seq<MetadatumView> {
    ms.map_values(|m: AlarmGroupMetadatum| m@)
}

/// The metadata of group `name` that `row` holds, or the details of the first column
/// that cannot be read (description, update time, author, user-category flag).
pub open spec fn row_metadatum(row: DataRow, name: Seq<char>) -> Result<MetadatumView, Seq<char>> {
    match row_text(row, "description"@) {
        Err(e) => Err(e),
        Ok(description) => match row_datetime(row, "updated_at"@) {
            Err(e) => Err(e),
            Ok(updated_at) => match row_text(row, "updated_by"@) {
                Err(e) => Err(e),
                Ok(updated_by) => match row_bool(row, "group_is_user_category"@) {
                    Err(e) => Err(e),
                    Ok(is_user_category) => Ok(
                        MetadatumView {
                            name,
                            description,
                            updated_at: Some(timestamp_of(updated_at)),
                            updated_by,
                            is_user_category,
                        },
                    ),
                },
            },
        },
    }
}

/// Reads the metadata of group `name` from a result row.
pub fn create_metadatum(row: &DataRow, name: String) -> (r: Result<AlarmGroupMetadatum, DataStoreError>)
    ensures
        r is Ok <==> row_metadatum(*row, name@) is Ok,
        r matches Ok(m) ==> row_metadatum(*row, name@) == Ok::<MetadatumView, Seq<char>>(m@),
        r matches Err(e) ==> row_metadatum(*row, name@) == Err::<MetadatumView, Seq<char>>(
            e.spec_details(),
        ),
{
    let description = match row.get_str("description") {
        Ok(v) => v,
        Err(e) => return Err(e),
    };
    let updated_at = match row.get_datetime("updated_at") {
        Ok(v) => datetime_to_timestamp(v),
        Err(e) => return Err(e),
    };
    let updated_by = match row.get_str("updated_by") {
        Ok(v) => v,
        Err(e) => return Err(e),
    };
    let is_user_category = match row.get_bool("group_is_user_category") {
        Ok(v) => v,
        Err(e) => return Err(e),
    };
    Ok(AlarmGroupMetadatum { name, description, updated_at, updated_by, is_user_category })
}

/// The metadata of the group that one row of the metadata query describes.
pub open spec fn row_group_metadatum(row: DataRow) -> Result<MetadatumView, Seq<char>> {
    match row_text(row, "group_name"@) {
        Err(e) => Err(e),
        Ok(name) => row_metadatum(row, name),
    }
}

/// The metadata that the rows describe, in row order, or the details of the first
/// column that cannot be read.
pub open spec fn rows_to_metadata_views(rows: Seq<DataRow>) -> Result<Seq<MetadatumView>, Seq<char>>
    decreases rows.len(),
{
    if rows.len() == 0 {
        Ok(Seq::empty())
    } else {
        match rows_to_metadata_views(rows.drop_last()) {
            Err(e) => Err(e),
            Ok(ms) => match row_group_metadatum(rows.last()) {
                Err(e) => Err(e),
                Ok(m) => Ok(ms.push(m)),
            },
        }
    }
}

/// A successful read of the metadata rows yields one metadatum per row.
pub proof fn lemma_metadata_one_per_row(rows: Seq<DataRow>)
    ensures
        rows_to_metadata_views(rows) matches Ok(ms) ==> ms.len() == rows.len(),
    decreases rows.len(),
{
    if rows.len() > 0 {
        lemma_metadata_one_per_row(rows.drop_last());
    }
}

/// The metadata read from a row are that row's columns: the description, the update
/// time as a timestamp, the author and the user-category flag, under the name they are
/// read for; they are read exactly where all four columns can be read.
pub proof fn lemma_metadatum_columns(row: DataRow, name: Seq<char>)
    ensures
        row_metadatum(row, name) is Ok <==> {
            &&& row_text(row, "description"@) is Ok
            &&& row_datetime(row, "updated_at"@) is Ok
            &&& row_text(row, "updated_by"@) is Ok
            &&& row_bool(row, "group_is_user_category"@) is Ok
        },
        row_metadatum(row, name) matches Ok(m) ==> {
            &&& m.name == name
            &&& row_text(row, "description"@) == Ok::<Seq<char>, Seq<char>>(m.description)
            &&& m.updated_at == Some(timestamp_of(row_datetime(row, "updated_at"@)->Ok_0))
            &&& row_text(row, "updated_by"@) == Ok::<Seq<char>, Seq<char>>(m.updated_by)
            &&& row_bool(row, "group_is_user_category"@) == Ok::<bool, Seq<char>>(
                m.is_user_category,
            )
        },
{
}

/// A successful read of the metadata rows yields, at each row's position, the metadata
/// of the group that the row names, read from that row.
pub proof fn lemma_metadata_come_from_their_rows(rows: Seq<DataRow>)
    ensures
        rows_to_metadata_views(rows) matches Ok(ms) ==> ms.len() == rows.len() && forall|i: int|
            0 <= i < rows.len() ==> {
                &&& row_text(#[trigger] rows[i], "group_name"@) == Ok::<Seq<char>, Seq<char>>(
                    ms[i].name,
                )
                &&& row_metadatum(rows[i], ms[i].name) == Ok::<MetadatumView, Seq<char>>(ms[i])
            },
    decreases rows.len(),
{
    if rows.len() > 0 {
        let d = rows.drop_last();
        lemma_metadata_come_from_their_rows(d);
        if let Ok(ms) = rows_to_metadata_views(rows) {
            let md = rows_to_metadata_views(d)->Ok_0;
            assert(ms == md.push(row_group_metadatum(rows.last())->Ok_0));
            assert forall|i: int| 0 <= i < d.len() implies d[i] == rows[i] && ms[i] == md[i] by {}
            assert(rows[rows.len() - 1] == rows.last());
            lemma_row_metadatum_name(rows.last(), row_text(rows.last(), "group_name"@)->Ok_0);
        }
    }
}

proof fn lemma_metadata_error_persists(rows: Seq<DataRow>, k: int)
    requires
        0 <= k <= rows.len(),
        rows_to_metadata_views(rows.take(k)) is Err,
    ensures
        rows_to_metadata_views(rows) == rows_to_metadata_views(rows.take(k)),
    decreases rows.len() - k,
{
    if k < rows.len() {
        assert(rows.take(k + 1).drop_last() =~= rows.take(k));
        lemma_metadata_error_persists(rows, k + 1);
    } else {
        assert(rows.take(k) =~= rows);
    }
}

/// Reads the rows of the metadata query as group metadata, in row order; the first
/// row that cannot be read makes the whole read an error.
pub fn rows_to_metadata(rows: Vec<DataRow>) -> (r: Result<Vec<AlarmGroupMetadatum>, DataStoreError>)
    ensures
        r is Ok <==> rows_to_metadata_views(rows@) is Ok,
        r matches Ok(ms) ==> rows_to_metadata_views(rows@) == Ok::<Seq<MetadatumView>, Seq<char>>(
            metadata_views(ms@),
        ),
        r matches Err(e) ==> rows_to_metadata_views(rows@) == Err::<Seq<MetadatumView>, Seq<char>>(
            e.spec_details(),
        ),
{
    let mut metadata: Vec<AlarmGroupMetadatum> = Vec::new();
    let mut i: usize = 0;
    assert(rows@.take(0) =~= Seq::<DataRow>::empty());
    assert(metadata_views(metadata@) =~= Seq::<MetadatumView>::empty());
    while i < rows.len()
        invariant
            i <= rows@.len(),
            rows_to_metadata_views(rows@.take(i as int)) == Ok::<Seq<MetadatumView>, Seq<char>>(
                metadata_views(metadata@),
            ),
        decreases rows.len() - i,
    {
        assert(rows@.take(i + 1).drop_last() =~= rows@.take(i as int));
        assert(rows@.take(i + 1).last() == rows@[i as int]);
        let row = &rows[i];
        let name = match row.get_str("group_name") {
            Ok(v) => v,
            Err(e) => {
                proof {
                    lemma_metadata_error_persists(rows@, i + 1);
                }
                return Err(e);
            },
        };
        match create_metadatum(row, name) {
            Ok(m) => {
                let ghost before = metadata_views(metadata@);
                let ghost view = m@;
                metadata.push(m);
                assert(metadata_views(metadata@) =~= before.push(view));
            },
            Err(e) => {
                proof {
                    lemma_metadata_error_persists(rows@, i + 1);
                }
                return Err(e);
            },
        }
        i = i + 1;
    }
    assert(rows@.take(rows@.len() as int) =~= rows@);
    Ok(metadata)
}

pub open spec fn metadata_failure_message() -> Seq<char> {
    "Failed to retrieve alarm group metadata. See server logs for details."@
}

/// The query behind `get_group_metadata`, which binds nothing.
pub fn group_metadata_query() -> (q: ParameterizedQuery)
    ensures
        q.query@ == ALL_GROUPS_METADATA_QUERY@,
        q.bound() == Seq::<ParameterView>::empty(),
{
    ParameterizedQuery::new(ALL_GROUPS_METADATA_QUERY)
}

/// The reply to `get_group_metadata` once the data store has run the metadata query:
/// the metadata in row order, or an internal error where the query failed or a row
/// cannot be read.
pub fn group_metadata_reply(outcome: Result<Vec<DataRow>, DataStoreError>) -> (r: Result<
    AlarmGroupMetadata,
    Status,
>)
    ensures
        r is Ok <==> (outcome matches Ok(rows) && rows_to_metadata_views(rows@) is Ok),
        r matches Ok(reply) ==> outcome matches Ok(rows) && rows_to_metadata_views(rows@) == Ok::<
            Seq<MetadatumView>,
            Seq<char>,
        >(metadata_views(reply.metadata@)),
        r matches Err(s) ==> status_is(s, Code::Internal, metadata_failure_message()),
{
    let metadata = match outcome {
        Ok(rows) => rows_to_metadata(rows),
        Err(e) => Err(e),
    };
    match metadata {
        Ok(metadata) => Ok(AlarmGroupMetadata { metadata }),
        Err(_) => Err(
            Status::internal(
                "Failed to retrieve alarm group metadata. See server logs for details.",
            ),
        ),
    }
}

/// The placeholder of the `i`-th bound value: `$` and the decimal numeral of `i`.
pub open spec fn placeholder(i: nat) -> Seq<char> {
    "$"@ + decimal(i)
}

/// The placeholders `$1, $2, ..., $n`, separated by a comma and a space.
pub open spec fn placeholders(n: nat) -> Seq<char>
    decreases n,
{
    if n == 0 {
        Seq::empty()
    } else if n == 1 {
        placeholder(1)
    } else {
        placeholders((n - 1) as nat) + ", "@ + placeholder(n)
    }
}

/// Writes the placeholders of `n` bound values: `$1, $2, ..., $n`.
pub fn placeholder_list(n: usize) -> (s: String)
    ensures
        s@ == placeholders(n as nat),
{
    let mut s = String::new();
    let mut i: usize = 0;
    while i < n
        invariant
            i <= n,
            s@ == placeholders(i as nat),
        decreases n - i,
    {
        i = i + 1;
        if i > 1 {
            s.append(", ");
        }
        s.append("$");
        let digits = decimal_string(i);
        s.append(digits.as_str());
        proof {
            reveal_strlit("$");
            if i == 1 {
                assert(s@ =~= placeholder(1));
            } else {
                assert(s@ =~= placeholders((i - 1) as nat) + ", "@ + placeholder(i as nat));
            }
        }
    }
    s
}

/// The query that reads the full content of `n` requested groups.
pub open spec fn group_details_query(n: nat) -> Seq<char> {
    GROUP_DETAILS_QUERY_HEAD@ + placeholders(n) + GROUP_DETAILS_QUERY_TAIL@
}

pub open spec fn groups_required_message() -> Seq<char> {
    "\"groups\" field must not be empty."@
}

/// A request for the full content of some alarm groups, by name.
#[derive(Debug)]
pub struct GroupsRequest {
    pub groups: Vec<String>,
}

/// The query that serves a `get_groups` request: the group details query with one
/// placeholder per requested group, the group names bound in request order. A request
/// without groups is refused.
pub fn groups_query(request: GroupsRequest) -> (r: Result<ParameterizedQuery, Status>)
    ensures
        r is Err <==> request.groups@.len() == 0,
        r matches Err(s) ==> status_is(s, Code::InvalidArgument, groups_required_message()),
        r matches Ok(q) ==> {
            &&& q.query@ == group_details_query(request.groups@.len())
            &&& q.bound() == request.groups@.map_values(|g: String| ParameterView::Str(g@))
        },
{
    if request.groups.len() == 0 {
        return Err(Status::invalid_argument("\"groups\" field must not be empty."));
    }
    let n = request.groups.len();
    let mut text = String::from_str(GROUP_DETAILS_QUERY_HEAD);
    let list = placeholder_list(n);
    text.append(list.as_str());
    text.append(GROUP_DETAILS_QUERY_TAIL);
    let mut q = ParameterizedQuery { query: text, parameters: Vec::new() };
    let ghost names = request.groups@;
    let mut rest = request.groups;
    let ghost mut k: int = 0;
    assert(q.bound() =~= Seq::<ParameterView>::empty());
    assert(names.take(0).map_values(|g: String| ParameterView::Str(g@)) =~= Seq::<ParameterView>::empty());
    assert(names.skip(0) =~= names);
    while rest.len() > 0
        invariant
            0 <= k <= names.len(),
            rest@ == names.skip(k),
            q.query@ == group_details_query(n as nat),
            n == names.len(),
            q.bound() == names.take(k).map_values(|g: String| ParameterView::Str(g@)),
        decreases rest.len(),
    {
        let ghost before = rest@;
        let name = rest.remove(0);
        proof {
            assert(name == names[k]);
            assert(rest@ =~= names.skip(k + 1));
        }
        q.bind(QueryParameter::Str(name));
        proof {
            assert(names.take(k + 1).map_values(|g: String| ParameterView::Str(g@)) =~= names.take(
                k,
            ).map_values(|g: String| ParameterView::Str(g@)).push(ParameterView::Str(names[k]@)));
            k = k + 1;
        }
    }
    assert(names.take(k) =~= names);
    Ok(q)
}

/// An alarm group with its members: devices, and nested groups by name.
#[derive(Debug)]
pub struct AlarmGroup {
    pub metadata: Option<AlarmGroupMetadatum>,
    pub devices: Vec<String>,
    pub groups: Vec<String>,
}

/// What an `AlarmGroup` holds, with its texts as character sequences.
pub struct AlarmGroupView {
    pub metadata: Option<MetadatumView>,
    pub devices: Seq<Seq<char>>,
    pub groups: Seq<Seq<char>>,
}

impl View for AlarmGroup {
    type V = AlarmGroupView;

    open spec fn view(&self) -> AlarmGroupView {
        AlarmGroupView {
            metadata: match self.metadata {
                Some(m) => Some(m@),
                None => None,
            },
            devices: self.devices@.map_values(|d: String| d@),
            groups: self.groups@.map_values(|g: String| g@),
        }
    }
}

/// The requested alarm groups.
#[derive(Debug)]
pub struct AlarmGroups {
    pub alarm_groups: Vec<AlarmGroup>,
}

pub open spec fn group_views(gs: Seq<AlarmGroup>) -> Seq<AlarmGroupView> {
    gs.map_values(|g: AlarmGroup| g@)
}

pub open spec fn name_views(ns: Seq<String>) -> Seq<Seq<char>> {
    ns.map_values(|n: String| n@)
}

/// The group that the first row of group `name` opens: its metadata where the row
/// holds them (none where it does not), and no members yet.
pub open spec fn new_group(row: DataRow, name: Seq<char>) -> AlarmGroupView {
    AlarmGroupView {
        metadata: match row_metadatum(row, name) {
            Ok(m) => Some(m),
            Err(_) => None,
        },
        devices: Seq::empty(),
        groups: Seq::empty(),
    }
}

/// The group with one more member: a nested group or a device.
pub open spec fn add_member(g: AlarmGroupView, member: Seq<char>, is_group: bool) -> AlarmGroupView {
    if is_group {
        AlarmGroupView { groups: g.groups.push(member), ..g }
    } else {
        AlarmGroupView { devices: g.devices.push(member), ..g }
    }
}

/// The groups, by name, after one more row of group `name`: the group is opened at
/// the end where it is missing, and the row's member joins it; or the details of the
/// member column that cannot be read.
pub open spec fn add_group_row(
    names: Seq<Seq<char>>,
    groups: Seq<AlarmGroupView>,
    row: DataRow,
    name: Seq<char>,
) -> Result<(Seq<Seq<char>>, Seq<AlarmGroupView>), Seq<char>> {
    let i = first_index(names, name);
    let names1 = if i < 0 { names.push(name) } else { names };
    let groups1 = if i < 0 { groups.push(new_group(row, name)) } else { groups };
    let j = if i < 0 { names.len() as int } else { i };
    match row_text(row, "member_name"@) {
        Err(e) => Err(e),
        Ok(member) => match row_bool(row, "member_is_group"@) {
            Err(e) => Err(e),
            Ok(is_group) => Ok((names1, groups1.update(j, add_member(groups1[j], member, is_group)))),
        },
    }
}

/// The groups that the rows describe, with their names, one per group name in the
/// order in which names first appear, each listing its members in row order; or the
/// details of the first column that cannot be read (group name, member name, member
/// kind, in that order within a row).
pub open spec fn gather_groups(rows: Seq<DataRow>) -> Result<(Seq<Seq<char>>, Seq<AlarmGroupView>), Seq<char>>
    decreases rows.len(),
{
    if rows.len() == 0 {
        Ok((Seq::empty(), Seq::empty()))
    } else {
        match gather_groups(rows.drop_last()) {
            Err(e) => Err(e),
            Ok(gathered) => match row_text(rows.last(), "group_name"@) {
                Err(e) => Err(e),
                Ok(name) => add_group_row(gathered.0, gathered.1, rows.last(), name),
            },
        }
    }
}

proof fn lemma_groups_error_persists(rows: Seq<DataRow>, k: int)
    requires
        0 <= k <= rows.len(),
        gather_groups(rows.take(k)) is Err,
    ensures
        gather_groups(rows) == gather_groups(rows.take(k)),
    decreases rows.len() - k,
{
    if k < rows.len() {
        assert(rows.take(k + 1).drop_last() =~= rows.take(k));
        lemma_groups_error_persists(rows, k + 1);
    } else {
        assert(rows.take(k) =~= rows);
    }
}

/// The number of members, devices and nested groups, of each group.
pub open spec fn member_counts(gs: Seq<AlarmGroupView>) -> Seq<int> {
    gs.map_values(|g: AlarmGroupView| (g.devices.len() + g.groups.len()) as int)
}

/// What a gathering of groups keeps: one group per name, a name for every group, the
/// metadata of a group (where present) naming that group, and one member per row.
pub open spec fn groups_well_gathered(
    names: Seq<Seq<char>>,
    gs: Seq<AlarmGroupView>,
    row_count: int,
) -> bool {
    &&& names.len() == gs.len()
    &&& names.no_duplicates()
    &&& forall|i: int|
        0 <= i < gs.len() ==> (#[trigger] gs[i].metadata matches Some(m) ==> m.name == names[i])
    &&& sum(member_counts(gs)) == row_count
}

proof fn lemma_row_metadatum_name(row: DataRow, name: Seq<char>)
    ensures
        row_metadatum(row, name) matches Ok(m) ==> m.name == name,
{
}

/// A successful gathering of rows holds one group per name, each group's metadata
/// (where present) name that group, and every row becomes exactly one member of one
/// group: the groups hold as many members, all told, as there were rows.
pub proof fn lemma_gather_groups_well_gathered(rows: Seq<DataRow>)
    ensures
        gather_groups(rows) matches Ok(gathered) ==> groups_well_gathered(
            gathered.0,
            gathered.1,
            rows.len() as int,
        ),
    decreases rows.len(),
{
    if rows.len() == 0 {
        assert(member_counts(Seq::<AlarmGroupView>::empty()) =~= Seq::<int>::empty());
    } else {
        lemma_gather_groups_well_gathered(rows.drop_last());
        if let Ok(gathered) = gather_groups(rows.drop_last()) {
            let row = rows.last();
            if let Ok(name) = row_text(row, "group_name"@) {
                if let Ok(next) = add_group_row(gathered.0, gathered.1, row, name) {
                    let names = gathered.0;
                    let gs = gathered.1;
                    lemma_first_index_bounds(names, name);
                    lemma_row_metadatum_name(row, name);
                    let i = first_index(names, name);
                    let names1 = if i < 0 { names.push(name) } else { names };
                    let gs1 = if i < 0 { gs.push(new_group(row, name)) } else { gs };
                    let j = if i < 0 { names.len() as int } else { i };
                    let member = row_text(row, "member_name"@)->Ok_0;
                    let is_group = row_bool(row, "member_is_group"@)->Ok_0;
                    let g = add_member(gs1[j], member, is_group);
                    assert(next == (names1, gs1.update(j, g)));
                    if i < 0 {
                        assert(member_counts(gs1) =~= member_counts(gs).push(0));
                        lemma_sum_push(member_counts(gs), 0);
                        assert forall|a: int, b: int|
                            0 <= a < names1.len() && 0 <= b < names1.len() && a != b implies names1[a]
                            != names1[b] by {
                            if a == names.len() {
                                assert(names.contains(names[b]));
                            } else if b == names.len() {
                                assert(names.contains(names[a]));
                            }
                        }
                    }
                    assert(member_counts(gs1.update(j, g)) =~= member_counts(gs1).update(
                        j,
                        member_counts(gs1)[j] + 1,
                    ));
                    lemma_sum_update(member_counts(gs1), j, member_counts(gs1)[j] + 1);
                    assert forall|k: int| 0 <= k < gs1.update(j, g).len() implies (
                    #[trigger] gs1.update(j, g)[k].metadata matches Some(m) ==> m.name
                        == names1[k]) by {
                        if k != j {
                            assert(gs1.update(j, g)[k] == gs1[k]);
                        }
                    }
                }
            }
        }
    }
}

/// The group name and the member kind that a row holds, or the details of why they
/// cannot be read: the key by which rows belong to the nested groups or the devices of
/// a group.
pub open spec fn row_member_key() -> spec_fn(DataRow) -> (
    Result<Seq<char>, Seq<char>>,
    Result<bool, Seq<char>>,
) {
    |r: DataRow| (row_text(r, "group_name"@), row_bool(r, "member_is_group"@))
}

/// The member name that a row holds (empty where it cannot be read).
pub open spec fn row_member(r: DataRow) -> Seq<char> {
    match row_text(r, "member_name"@) {
        Ok(m) => m,
        Err(_) => Seq::empty(),
    }
}

/// The member names that the rows hold, in row order.
pub open spec fn row_members(rows: Seq<DataRow>) -> Seq<Seq<char>>
    decreases rows.len(),
{
    if rows.len() == 0 {
        Seq::empty()
    } else {
        row_members(rows.drop_last()).push(row_member(rows.last()))
    }
}

/// Whether some row holds the group name `n`.
pub open spec fn has_group_row(rows: Seq<DataRow>, n: Seq<char>) -> bool {
    exists|j: int|
        0 <= j < rows.len() && #[trigger] row_text(rows[j], "group_name"@) == Ok::<
            Seq<char>,
            Seq<char>,
        >(n)
}

/// Whether `rows[j]` is the first row of group `n`, and `metadata` what it holds of
/// that group: its metadata, or none where it does not hold them.
pub open spec fn first_row_metadata(
    rows: Seq<DataRow>,
    n: Seq<char>,
    j: int,
    metadata: Option<MetadatumView>,
) -> bool {
    &&& 0 <= j < rows.len()
    &&& row_text(rows[j], "group_name"@) == Ok::<Seq<char>, Seq<char>>(n)
    &&& forall|k: int|
        0 <= k < j ==> row_text(#[trigger] rows[k], "group_name"@) != Ok::<Seq<char>, Seq<char>>(
            n,
        )
    &&& metadata == match row_metadatum(rows[j], n) {
        Ok(m) => Some(m),
        Err(_) => None,
    }
}

/// In a successful gathering, the groups are those whose names rows hold; a group's
/// metadata are those that the first row of its name holds (none where that row does
/// not hold them); a group's nested groups are the member names of its rows that name a group, and its devices
/// the member names of its other rows, each in row order.
pub proof fn lemma_gather_groups_by_member_kind(rows: Seq<DataRow>)
    ensures
        gather_groups(rows) matches Ok(gathered) ==> {
            &&& forall|n: Seq<char>| #[trigger] gathered.0.contains(n) <==> has_group_row(rows, n)
            &&& forall|i: int|
                0 <= i < gathered.1.len() ==> exists|j: int|
                    first_row_metadata(rows, gathered.0[i], j, (#[trigger] gathered.1[i]).metadata)
            &&& forall|i: int|
                0 <= i < gathered.1.len() ==> (#[trigger] gathered.1[i]).groups == row_members(
                    with_key(
                        rows,
                        row_member_key(),
                        (Ok(gathered.0[i]), Ok::<bool, Seq<char>>(true)),
                    ),
                )
            &&& forall|i: int|
                0 <= i < gathered.1.len() ==> (#[trigger] gathered.1[i]).devices == row_members(
                    with_key(
                        rows,
                        row_member_key(),
                        (Ok(gathered.0[i]), Ok::<bool, Seq<char>>(false)),
                    ),
                )
        },
    decreases rows.len(),
{
    if rows.len() > 0 {
        let d = rows.drop_last();
        let last = rows.last();
        lemma_gather_groups_by_member_kind(d);
        lemma_gather_groups_well_gathered(d);
        if let Ok(gathered) = gather_groups(rows) {
            let names = gather_groups(d)->Ok_0.0;
            let gs = gather_groups(d)->Ok_0.1;
            let name = row_text(last, "group_name"@)->Ok_0;
            let member = row_text(last, "member_name"@)->Ok_0;
            let is_group = row_bool(last, "member_is_group"@)->Ok_0;
            assert(gathered == add_group_row(names, gs, last, name)->Ok_0);
            assert(row_member(last) == member);
            let key = (Ok::<Seq<char>, Seq<char>>(name), Ok::<bool, Seq<char>>(is_group));
            assert(row_member_key()(last) == key);
            lemma_first_index_bounds(names, name);
            let i = first_index(names, name);
            let names1 = if i < 0 { names.push(name) } else { names };
            let gs1 = if i < 0 { gs.push(new_group(last, name)) } else { gs };
            let j = if i < 0 { names.len() as int } else { i };
            assert(gathered.0 == names1);
            assert(gathered.1 == gs1.update(j, add_member(gs1[j], member, is_group)));
            assert forall|k: int| 0 <= k < d.len() implies d[k] == rows[k] by {}
            assert(rows[rows.len() - 1] == last);
            assert forall|n: Seq<char>| #[trigger] gathered.0.contains(n) <==> has_group_row(
                rows,
                n,
            ) by {
                if has_group_row(rows, n) {
                    let m = choose|m: int|
                        0 <= m < rows.len() && #[trigger] row_text(rows[m], "group_name"@) == Ok::<
                            Seq<char>,
                            Seq<char>,
                        >(n);
                    if m < d.len() {
                        assert(row_text(d[m], "group_name"@) == Ok::<Seq<char>, Seq<char>>(n));
                        assert(has_group_row(d, n));
                        assert(names.contains(n));
                        let q = choose|q: int| 0 <= q < names.len() && names[q] == n;
                        assert(names1[q] == n);
                    } else {
                        assert(n == name);
                        assert(names1[j] == n);
                    }
                }
                if gathered.0.contains(n) {
                    let q = choose|q: int| 0 <= q < names1.len() && names1[q] == n;
                    if q < names.len() {
                        assert(names[q] == n);
                        assert(names.contains(n));
                        assert(has_group_row(d, n));
                        let m = choose|m: int|
                            0 <= m < d.len() && #[trigger] row_text(d[m], "group_name"@) == Ok::<
                                Seq<char>,
                                Seq<char>,
                            >(n);
                        assert(row_text(rows[m], "group_name"@) == Ok::<Seq<char>, Seq<char>>(n));
                    } else {
                        assert(row_text(rows[rows.len() - 1], "group_name"@) == Ok::<
                            Seq<char>,
                            Seq<char>,
                        >(n));
                    }
                }
            }
            assert forall|b: bool| #[trigger] with_key(
                rows,
                row_member_key(),
                (Ok::<Seq<char>, Seq<char>>(name), Ok::<bool, Seq<char>>(b)),
            ) == if b == is_group {
                with_key(
                    d,
                    row_member_key(),
                    (Ok::<Seq<char>, Seq<char>>(name), Ok::<bool, Seq<char>>(b)),
                ).push(last)
            } else {
                with_key(
                    d,
                    row_member_key(),
                    (Ok::<Seq<char>, Seq<char>>(name), Ok::<bool, Seq<char>>(b)),
                )
            } by {}
            assert forall|w: Seq<DataRow>| #[trigger] row_members(w.push(last)) == row_members(
                w,
            ).push(member) by {
                assert(w.push(last).drop_last() =~= w);
            }
            if i < 0 {
                assert forall|b: bool| #[trigger] with_key(
                    d,
                    row_member_key(),
                    (Ok::<Seq<char>, Seq<char>>(name), Ok::<bool, Seq<char>>(b)),
                ) == Seq::<DataRow>::empty() by {
                    let k = (Ok::<Seq<char>, Seq<char>>(name), Ok::<bool, Seq<char>>(b));
                    assert forall|m: int| 0 <= m < d.len() implies (row_member_key())(
                        #[trigger] d[m],
                    ) != k by {
                        if row_text(d[m], "group_name"@) == Ok::<Seq<char>, Seq<char>>(name) {
                            assert(has_group_row(d, name));
                        }
                    }
                    lemma_with_key_none(d, row_member_key(), k);
                }
                assert(row_members(Seq::<DataRow>::empty()) =~= Seq::<Seq<char>>::empty());
            }
            assert forall|k: int| 0 <= k < gathered.1.len() implies {
                &&& exists|wj: int| first_row_metadata(rows, gathered.0[k], wj, gathered.1[k].metadata)
                &&& (#[trigger] gathered.1[k]).groups == row_members(
                    with_key(
                        rows,
                        row_member_key(),
                        (Ok(gathered.0[k]), Ok::<bool, Seq<char>>(true)),
                    ),
                )
                &&& gathered.1[k].devices == row_members(
                    with_key(
                        rows,
                        row_member_key(),
                        (Ok(gathered.0[k]), Ok::<bool, Seq<char>>(false)),
                    ),
                )
            } by {
                if k != j {
                    assert(gathered.1[k] == gs[k]);
                    assert(names1[k] == names[k]);
                    let wj = choose|wj: int| first_row_metadata(d, names[k], wj, gs[k].metadata);
                    assert(first_row_metadata(rows, names[k], wj, gathered.1[k].metadata)) by {
                        assert(rows[wj] == d[wj]);
                        assert forall|q: int| 0 <= q < wj implies row_text(
                            #[trigger] rows[q],
                            "group_name"@,
                        ) != Ok::<Seq<char>, Seq<char>>(names[k]) by {
                            assert(rows[q] == d[q]);
                        }
                    }
                    if names[k] == name {
                        assert(names.contains(name));
                        assert(names[k] == names[i]);
                    }
                    assert forall|b: bool| #[trigger] with_key(
                        rows,
                        row_member_key(),
                        (Ok::<Seq<char>, Seq<char>>(names[k]), Ok::<bool, Seq<char>>(b)),
                    ) == with_key(
                        d,
                        row_member_key(),
                        (Ok::<Seq<char>, Seq<char>>(names[k]), Ok::<bool, Seq<char>>(b)),
                    ) by {}
                    assert(gs[k].groups == row_members(
                        with_key(
                            d,
                            row_member_key(),
                            (Ok(names[k]), Ok::<bool, Seq<char>>(true)),
                        ),
                    ));
                    assert(gs[k].devices == row_members(
                        with_key(
                            d,
                            row_member_key(),
                            (Ok(names[k]), Ok::<bool, Seq<char>>(false)),
                        ),
                    ));
                } else {
                    assert(names1[j] == name);
                    if i >= 0 {
                        assert(gs1[j] == gs[i]);
                        let wj = choose|wj: int| first_row_metadata(d, names[i], wj, gs[i].metadata);
                        assert(first_row_metadata(rows, names[i], wj, gathered.1[k].metadata)) by {
                            assert(rows[wj] == d[wj]);
                            assert forall|q: int| 0 <= q < wj implies row_text(
                                #[trigger] rows[q],
                                "group_name"@,
                            ) != Ok::<Seq<char>, Seq<char>>(names[i]) by {
                                assert(rows[q] == d[q]);
                            }
                        }
                        assert(gs[i].groups == row_members(
                            with_key(d, row_member_key(), (Ok(names[i]), Ok::<bool, Seq<char>>(true))),
                        ));
                        assert(gs[i].devices == row_members(
                            with_key(d, row_member_key(), (Ok(names[i]), Ok::<bool, Seq<char>>(false))),
                        ));
                    } else {
                        assert(gs1[j] == new_group(last, name));
                        let wj = rows.len() - 1;
                        assert(first_row_metadata(rows, name, wj, gathered.1[k].metadata)) by {
                            assert forall|q: int| 0 <= q < wj implies row_text(
                                #[trigger] rows[q],
                                "group_name"@,
                            ) != Ok::<Seq<char>, Seq<char>>(name) by {
                                assert(rows[q] == d[q]);
                                if row_text(d[q], "group_name"@) == Ok::<Seq<char>, Seq<char>>(name) {
                                    assert(has_group_row(d, name));
                                }
                            }
                        }
                    }
                    if is_group {
                        assert(gathered.1[k].groups == gs1[j].groups.push(member));
                        assert(gathered.1[k].devices == gs1[j].devices);
                    } else {
                        assert(gathered.1[k].devices == gs1[j].devices.push(member));
                        assert(gathered.1[k].groups == gs1[j].groups);
                    }
                }
            }
        }
    }
}

/// The index of `name` among `names`, or the number of names where it is missing.
fn find_name(names: &Vec<String>, name: &String) -> (i: usize)
    ensures
        i <= names.len(),
        i == names.len() ==> first_index(name_views(names@), name@) == -1,
        i < names.len() ==> first_index(name_views(names@), name@) == i,
{
    let ghost views = name_views(names@);
    let mut i: usize = 0;
    while i < names.len()
        invariant
            i <= names.len(),
            views == name_views(names@),
            views.len() == names.len(),
            forall|j: int| 0 <= j < i ==> views[j] != name@,
        decreases names.len() - i,
    {
        if names[i] == *name {
            proof {
                lemma_first_index_found(views, name@, i as int);
            }
            return i;
        }
        i = i + 1;
    }
    proof {
        lemma_first_index_bounds(views, name@);
    }
    i
}

/// Gathers the rows of the group details query into one group per group name, in the
/// order in which names first appear. A group's metadata come from its first row
/// (none where that row does not hold them); its members, devices or nested groups,
/// keep row order. The first row whose group name, member name or member kind cannot
/// be read makes the whole gathering an error.
pub fn rows_to_groups(rows: Vec<DataRow>) -> (r: Result<Vec<AlarmGroup>, DataStoreError>)
    ensures
        r is Ok <==> gather_groups(rows@) is Ok,
        r matches Ok(gs) ==> gather_groups(rows@) matches Ok(gathered) && gathered.1 == group_views(
            gs@,
        ),
        r matches Err(e) ==> gather_groups(rows@) == Err::<
            (Seq<Seq<char>>, Seq<AlarmGroupView>),
            Seq<char>,
        >(e.spec_details()),
{
    let mut names: Vec<String> = Vec::new();
    let mut groups: Vec<AlarmGroup> = Vec::new();
    let mut i: usize = 0;
    assert(rows@.take(0) =~= Seq::<DataRow>::empty());
    assert(name_views(names@) =~= Seq::<Seq<char>>::empty());
    assert(group_views(groups@) =~= Seq::<AlarmGroupView>::empty());
    while i < rows.len()
        invariant
            i <= rows@.len(),
            names.len() == groups.len(),
            gather_groups(rows@.take(i as int)) == Ok::<
                (Seq<Seq<char>>, Seq<AlarmGroupView>),
                Seq<char>,
            >((name_views(names@), group_views(groups@))),
        decreases rows.len() - i,
    {
        assert(rows@.take(i + 1).drop_last() =~= rows@.take(i as int));
        assert(rows@.take(i + 1).last() == rows@[i as int]);
        let row = &rows[i];
        let name = match row.get_str("group_name") {
            Ok(v) => v,
            Err(e) => {
                proof {
                    lemma_groups_error_persists(rows@, i + 1);
                }
                return Err(e);
            },
        };
        let ghost names_before = name_views(names@);
        let ghost groups_before = group_views(groups@);
        let found = find_name(&names, &name);
        let idx = if found == names.len() {
            let metadata = match create_metadatum(row, name.clone()) {
                Ok(m) => Some(m),
                Err(_) => None,
            };
            let ghost name_view = name@;
            names.push(name);
            groups.push(AlarmGroup { metadata, devices: Vec::new(), groups: Vec::new() });
            assert(name_views(names@) =~= names_before.push(name_view));
            assert(groups@.last()@.devices =~= Seq::<Seq<char>>::empty());
            assert(groups@.last()@.groups =~= Seq::<Seq<char>>::empty());
            assert(group_views(groups@) =~= groups_before.push(new_group(rows@[i as int], name_view)));
            found
        } else {
            found
        };
        let ghost groups_mid = group_views(groups@);
        let member = match row.get_str("member_name") {
            Ok(v) => v,
            Err(e) => {
                proof {
                    lemma_groups_error_persists(rows@, i + 1);
                }
                return Err(e);
            },
        };
        let is_group = match row.get_bool("member_is_group") {
            Ok(v) => v,
            Err(e) => {
                proof {
                    lemma_groups_error_persists(rows@, i + 1);
                }
                return Err(e);
            },
        };
        let ghost member_view = member@;
        let mut entry = groups.remove(idx);
        let ghost old_entry = entry@;
        if is_group {
            entry.groups.push(member);
            assert(entry@.groups =~= old_entry.groups.push(member_view));
            assert(entry@.devices =~= old_entry.devices);
        } else {
            entry.devices.push(member);
            assert(entry@.devices =~= old_entry.devices.push(member_view));
            assert(entry@.groups =~= old_entry.groups);
        }
        assert(entry@ == add_member(old_entry, member_view, is_group));
        groups.insert(idx, entry);
        assert(group_views(groups@) =~= groups_mid.update(
            idx as int,
            add_member(groups_mid[idx as int], member_view, is_group),
        ));
        i = i + 1;
    }
    assert(rows@.take(rows@.len() as int) =~= rows@);
    Ok(groups)
}

/// The name in a group's metadata, or none where the group has no metadata.
pub open spec fn group_key(g: AlarmGroupView) -> Option<Seq<char>> {
    match g.metadata {
        Some(m) => Some(m.name),
        None => None,
    }
}

/// `group_key` as a function value, the key by which groups are ordered.
pub open spec fn group_name_key() -> spec_fn(AlarmGroupView) -> Option<Seq<char>> {
    |g: AlarmGroupView| group_key(g)
}

/// Whether a group of key `a` goes before a group of key `b`: groups with metadata go
/// before groups without, and among them a smaller name goes first.
pub open spec fn key_before(a: Option<Seq<char>>, b: Option<Seq<char>>) -> bool {
    match a {
        None => false,
        Some(x) => match b {
            None => true,
            Some(y) => str_lt(x, y),
        },
    }
}

pub open spec fn group_before(a: AlarmGroupView, b: AlarmGroupView) -> bool {
    key_before(group_key(a), group_key(b))
}

/// The order in which groups are sorted: no group goes before itself; of two groups at
/// most one goes before the other; a group with metadata goes before a group without;
/// of two groups with metadata, one goes before the other exactly when their names
/// differ, the one with the smaller name first; and going before is transitive.
pub proof fn lemma_group_order(a: AlarmGroupView, b: AlarmGroupView, c: AlarmGroupView)
    ensures
        !group_before(a, a),
        !(group_before(a, b) && group_before(b, a)),
        a.metadata is Some && b.metadata is None ==> group_before(a, b),
        a.metadata is None ==> !group_before(a, b),
        a.metadata is Some && b.metadata is Some ==> {
            &&& group_before(a, b) <==> str_lt(
                a.metadata->Some_0.name,
                b.metadata->Some_0.name,
            )
            &&& (!group_before(a, b) && !group_before(b, a)) <==> a.metadata->Some_0.name
                == b.metadata->Some_0.name
        },
        group_before(a, b) && group_before(b, c) ==> group_before(a, c),
{
    lemma_group_before_order(a, b, c);
    if let Some(x) = group_key(a) {
        if let Some(y) = group_key(b) {
            lemma_str_lt_total(x, y);
            lemma_str_lt_irreflexive(x);
        }
    }
}

/// Groups in which no group goes before one that stands ahead of it.
pub open spec fn sorted_by_metadata_name(gs: Seq<AlarmGroupView>) -> bool {
    forall|i: int, j: int| 0 <= i < j < gs.len() ==> !group_before(#[trigger] gs[j], #[trigger] gs[i])
}

/// The groups in name order: the groups with metadata come first, each name once and
/// in increasing order of name, and the groups without metadata follow.
pub open spec fn in_metadata_name_order(gs: Seq<AlarmGroupView>) -> bool {
    forall|i: int, j: int|
        0 <= i < j < gs.len() && (#[trigger] gs[j]).metadata is Some ==> {
            &&& (#[trigger] gs[i]).metadata is Some
            &&& str_lt(gs[i].metadata->Some_0.name, gs[j].metadata->Some_0.name)
        }
}

/// The reply's groups are the gathered groups in name order; the groups without
/// metadata keep the order in which they were gathered.
pub open spec fn groups_in_reply_order(gathered: Seq<AlarmGroupView>, reply: Seq<AlarmGroupView>) -> bool {
    &&& reply.to_multiset() == gathered.to_multiset()
    &&& forall|k: Option<Seq<char>>|
        #[trigger] with_key(reply, group_name_key(), k) == with_key(gathered, group_name_key(), k)
    &&& in_metadata_name_order(reply)
}

proof fn lemma_group_before_order(a: AlarmGroupView, b: AlarmGroupView, c: AlarmGroupView)
    ensures
        !group_before(a, a),
        group_before(a, b) && group_before(b, c) ==> group_before(a, c),
{
    if let Some(x) = group_key(a) {
        lemma_str_lt_irreflexive(x);
        if let Some(y) = group_key(b) {
            if let Some(z) = group_key(c) {
                if str_lt(x, y) && str_lt(y, z) {
                    lemma_str_lt_transitive(x, y, z);
                }
            }
        }
    }
}

/// Whether group `a` goes before group `b`.
fn goes_before(a: &AlarmGroup, b: &AlarmGroup) -> (r: bool)
    ensures
        r == group_before(a@, b@),
{
    match &a.metadata {
        None => false,
        Some(x) => match &b.metadata {
            None => true,
            Some(y) => str_less(x.name.as_str(), y.name.as_str()),
        },
    }
}

/// Inserting `x` before the first group that it goes before keeps the groups sorted,
/// and places `x` after every group of its own key.
proof fn lemma_insert_group(s: Seq<AlarmGroupView>, x: AlarmGroupView, p: int, before: Seq<AlarmGroupView>)
    requires
        sorted_by_metadata_name(s),
        0 <= p <= s.len(),
        forall|j: int| 0 <= j < p ==> !group_before(x, #[trigger] s[j]),
        p < s.len() ==> group_before(x, s[p]),
        forall|k: Option<Seq<char>>|
            with_key(s, group_name_key(), k) == with_key(before, group_name_key(), k),
    ensures
        sorted_by_metadata_name(s.insert(p, x)),
        forall|k: Option<Seq<char>>|
            #[trigger] with_key(s.insert(p, x), group_name_key(), k) == with_key(
                before.push(x),
                group_name_key(),
                k,
            ),
{
    let t = s.insert(p, x);
    assert forall|i: int, j: int| 0 <= i < j < t.len() implies !group_before(
        #[trigger] t[j],
        #[trigger] t[i],
    ) by {
        if i == p {
            lemma_group_before_order(s[j - 1], x, s[p]);
            lemma_group_before_order(s[p], x, s[p]);
            if j - 1 > p {
                assert(!group_before(s[j - 1], s[p]));
            }
        } else if j == p {
            assert(t[i] == s[i]);
        } else {
            let oi = if i < p { i } else { i - 1 };
            let oj = if j < p { j } else { j - 1 };
            assert(t[i] == s[oi]);
            assert(t[j] == s[oj]);
        }
    }
    assert forall|k: Option<Seq<char>>| #[trigger]
        with_key(s.insert(p, x), group_name_key(), k) == with_key(
            before.push(x),
            group_name_key(),
            k,
        ) by {
        lemma_with_key_insert(s, p, x, group_name_key(), k);
        lemma_with_key_push(before, x, group_name_key(), k);
        assert(with_key(s, group_name_key(), k) == with_key(before, group_name_key(), k));
        if group_key(x) == k {
            let rest = s.skip(p);
            assert forall|i: int| 0 <= i < rest.len() implies (group_name_key())(
                #[trigger] rest[i],
            ) != k by {
                assert(rest[i] == s[p + i]);
                if group_key(s[p + i]) == group_key(x) {
                    lemma_group_before_order(x, x, x);
                    if i > 0 {
                        assert(!group_before(s[p + i], s[p]));
                    }
                }
            }
            lemma_with_key_none(rest, group_name_key(), k);
            assert(with_key(s.take(p), group_name_key(), k) + with_key(
                rest,
                group_name_key(),
                k,
            ) =~= with_key(s.take(p), group_name_key(), k));
            assert(with_key(s.insert(p, x), group_name_key(), k) =~= with_key(
                s,
                group_name_key(),
                k,
            ).push(x));
        } else {
            assert(with_key(s.take(p), group_name_key(), k) + Seq::<AlarmGroupView>::empty()
                + with_key(s.skip(p), group_name_key(), k) =~= with_key(
                s.take(p),
                group_name_key(),
                k,
            ) + with_key(s.skip(p), group_name_key(), k));
        }
    }
}

/// Sorts groups by the name in their metadata, the groups without metadata last;
/// groups of the same name, and the groups without metadata, keep their order.
pub fn sort_groups(groups: Vec<AlarmGroup>) -> (sorted: Vec<AlarmGroup>)
    ensures
        group_views(sorted@).to_multiset() == group_views(groups@).to_multiset(),
        sorted_by_metadata_name(group_views(sorted@)),
        forall|k: Option<Seq<char>>|
            #[trigger] with_key(group_views(sorted@), group_name_key(), k) == with_key(
                group_views(groups@),
                group_name_key(),
                k,
            ),
{
    let ghost input = group_views(groups@);
    let mut rest = groups;
    let mut sorted: Vec<AlarmGroup> = Vec::new();
    let ghost mut k: int = 0;
    assert(input.take(0) =~= Seq::<AlarmGroupView>::empty());
    assert(input.skip(0) =~= input);
    assert(group_views(sorted@) =~= Seq::<AlarmGroupView>::empty());
    while rest.len() > 0
        invariant
            0 <= k <= input.len(),
            group_views(rest@) == input.skip(k),
            group_views(sorted@).to_multiset() == input.take(k).to_multiset(),
            sorted_by_metadata_name(group_views(sorted@)),
            forall|key: Option<Seq<char>>|
                with_key(group_views(sorted@), group_name_key(), key) == with_key(
                    input.take(k),
                    group_name_key(),
                    key,
                ),
        decreases rest.len(),
    {
        let ghost sv = group_views(sorted@);
        let ghost rv = group_views(rest@);
        assert(rv.len() > 0);
        assert(rv[0] == input[k]);
        let x = rest.remove(0);
        let ghost xv = x@;
        assert(xv == rv[0]);
        assert(group_views(rest@) =~= rv.drop_first());
        assert(input.skip(k).drop_first() =~= input.skip(k + 1));
        let mut p: usize = 0;
        loop
            invariant
                p <= sorted.len(),
                sv == group_views(sorted@),
                xv == x@,
                forall|j: int| 0 <= j < p ==> !group_before(xv, #[trigger] sv[j]),
            ensures
                p <= sorted.len(),
                forall|j: int| 0 <= j < p ==> !group_before(xv, #[trigger] sv[j]),
                p < sorted.len() ==> group_before(xv, sv[p as int]),
            decreases sorted.len() - p,
        {
            if p == sorted.len() {
                break;
            }
            assert(sv[p as int] == sorted@[p as int]@);
            if goes_before(&x, &sorted[p]) {
                break;
            }
            p = p + 1;
        }
        proof {
            lemma_insert_group(sv, xv, p as int, input.take(k));
            assert(input.take(k + 1) =~= input.take(k).push(xv));
            assert(input.take(k + 1) =~= input.take(k).insert(k, xv));
        }
        sorted.insert(p, x);
        proof {
            assert(group_views(sorted@) =~= sv.insert(p as int, xv));
            k = k + 1;
        }
    }
    assert(input.take(k) =~= input);
    sorted
}

/// Sorted groups whose metadata names are unique are in name order.
proof fn lemma_sorted_unique_names_in_order(gs: Seq<AlarmGroupView>)
    requires
        sorted_by_metadata_name(gs),
        forall|k: Option<Seq<char>>| k is Some ==> #[trigger] with_key(gs, group_name_key(), k).len() <= 1,
    ensures
        in_metadata_name_order(gs),
{
    assert forall|i: int, j: int|
        0 <= i < j < gs.len() && (#[trigger] gs[j]).metadata is Some implies {
            &&& (#[trigger] gs[i]).metadata is Some
            &&& str_lt(gs[i].metadata->Some_0.name, gs[j].metadata->Some_0.name)
        } by {
        assert(!group_before(gs[j], gs[i]));
        let b = gs[j].metadata->Some_0.name;
        let a = gs[i].metadata->Some_0.name;
        lemma_str_lt_total(a, b);
        if a == b {
            lemma_with_key_two(gs, group_name_key(), i, j);
            assert(with_key(gs, group_name_key(), Some(b)).len() <= 1);
        }
    }
}

/// Gathered groups hold each metadata name at most once.
proof fn lemma_gathered_names_unique(rows: Seq<DataRow>)
    ensures
        gather_groups(rows) matches Ok(gathered) ==> forall|k: Option<Seq<char>>|
            k is Some ==> #[trigger] with_key(gathered.1, group_name_key(), k).len() <= 1,
{
    lemma_gather_groups_well_gathered(rows);
    if let Ok(gathered) = gather_groups(rows) {
        let names = gathered.0;
        let gs = gathered.1;
        assert forall|k: Option<Seq<char>>| k is Some implies #[trigger] with_key(
            gs,
            group_name_key(),
            k,
        ).len() <= 1 by {
            assert forall|i: int, j: int|
                0 <= i < j < gs.len() && (group_name_key())(#[trigger] gs[i]) == k implies (
            group_name_key())(#[trigger] gs[j]) != k by {
                if group_key(gs[j]) == k {
                    assert(gs[i].metadata matches Some(m) ==> m.name == names[i]);
                    assert(gs[j].metadata matches Some(m) ==> m.name == names[j]);
                    assert(names[i] != names[j]);
                }
            }
            lemma_with_key_at_most_one(gs, group_name_key(), k);
        }
    }
}

pub open spec fn groups_failure_message() -> Seq<char> {
    "Failed to retrieve alarm groups. See server logs for details."@
}

/// The reply to `get_groups` once the data store has run the group details query:
/// the gathered groups in name order (those without metadata last), or an internal
/// error where the query failed or a row cannot be read.
pub fn groups_reply(outcome: Result<Vec<DataRow>, DataStoreError>) -> (r: Result<AlarmGroups, Status>)
    ensures
        r is Ok <==> (outcome matches Ok(rows) && gather_groups(rows@) is Ok),
        r matches Ok(reply) ==> outcome matches Ok(rows) && gather_groups(rows@) matches Ok(
            gathered,
        ) && groups_in_reply_order(gathered.1, group_views(reply.alarm_groups@)),
        r matches Err(s) ==> status_is(s, Code::Internal, groups_failure_message()),
{
    let groups = match outcome {
        Ok(rows) => {
            proof {
                lemma_gathered_names_unique(rows@);
            }
            rows_to_groups(rows)
        },
        Err(e) => Err(e),
    };
    match groups {
        Ok(gathered) => {
            let alarm_groups = sort_groups(gathered);
            proof {
                let sv = group_views(alarm_groups@);
                assert forall|k: Option<Seq<char>>| k is Some implies #[trigger] with_key(
                    sv,
                    group_name_key(),
                    k,
                ).len() <= 1 by {
                    assert(with_key(sv, group_name_key(), k) == with_key(
                        group_views(gathered@),
                        group_name_key(),
                        k,
                    ));
                }
                lemma_sorted_unique_names_in_order(sv);
            }
            Ok(AlarmGroups { alarm_groups })
        },
        Err(_) => Err(
            Status::internal("Failed to retrieve alarm groups. See server logs for details."),
        ),
    }
}

} // verus!
