//! The alarm timer service: snooze timers and bypass reminders attached to devices.
//! Requests are validated, and device names and user names lowercased, before any
//! query is built; result rows become timer messages.

use vstd::prelude::*;
use crate::datetime::{
    DateTimeUtc, Timestamp, datetime_of, datetime_to_timestamp, timestamp_of,
    timestamp_range_message, timestamp_to_datetime,
};
use crate::error::{Code, DataStoreError, Status, status_is};
use crate::row::{
    DataRow, ParameterView, ParameterizedQuery, QueryParameter, row_datetime, row_text,
};
use crate::text::{lowercase, to_lowercase};
use crate::timer_type::{KnownTimerType, TimerType, invalid_timer_type_message};

pub mod queries;

use queries::{
    CREATE_TIMER_QUERY, DELETE_TIMER_QUERY, READ_SNOOZE_TIMERS, READ_USER_BYPASS_REMINDERS_QUERY,
    UPDATE_TIMER_QUERY,
};

verus! {

/// A timer as clients send and receive it.
#[derive(Debug)]
pub struct AlarmTimer {
    pub device: String,
    pub end_time: Option<Timestamp>,
    pub timer_type: i32,
    pub updated_at: Option<Timestamp>,
    pub updated_by: String,
}

/// What an `AlarmTimer` holds, with its texts as character sequences.
pub struct AlarmTimerView {
    pub device: Seq<char>,
    pub end_time: Option<Timestamp>,
    pub timer_type: i32,
    pub updated_at: Option<Timestamp>,
    pub updated_by: Seq<char>,
}

impl View for AlarmTimer {
    type V = AlarmTimerView;

    open spec fn view(&self) -> AlarmTimerView {
        AlarmTimerView {
            device: self.device@,
            end_time: self.end_time,
            timer_type: self.timer_type,
            updated_at: self.updated_at,
            updated_by: self.updated_by@,
        }
    }
}

/// The timers that a read request returns.
#[derive(Debug)]
pub struct AlarmTimers {
    pub alarm_timers: Vec<AlarmTimer>,
}

/// A request to delete the timer of one kind on one device.
#[derive(Debug)]
pub struct DeleteRequest {
    pub device: String,
    pub timer_type: i32,
}

/// A request to read timers: all snooze timers, or the bypass reminders of one user.
#[derive(Debug)]
pub struct ReadRequest {
    pub timer_type: i32,
    pub user: String,
}

/// The empty reply of a request that changes data.
#[derive(Debug, PartialEq, Eq, Structural)]
pub struct Empty {}

/// A delete request that passed validation.
#[derive(Debug)]
pub struct ValidDeleteRequest {
    pub device: String,
    pub timer_type: KnownTimerType,
}

/// A read request that passed validation.
#[derive(Debug)]
pub struct ValidReadRequest {
    pub timer_type: KnownTimerType,
    pub user: String,
}

/// A timer to create or update that passed validation.
#[derive(Debug)]
pub struct ValidTimerInput {
    pub device: String,
    pub end_time: DateTimeUtc,
    pub timer_type: KnownTimerType,
    pub updated_by: String,
}

pub open spec fn device_required_message() -> Seq<char> {
    "\"device\" field is required."@
}

pub open spec fn updated_by_required_message() -> Seq<char> {
    "\"updated_by\" field is required."@
}

pub open spec fn end_time_required_message() -> Seq<char> {
    "\"end_time\" field is required."@
}

pub open spec fn user_required_message() -> Seq<char> {
    "\"user\" field is required for reminder queries."@
}

/// The stored kind of timer that a wire number names, if it names one.
pub open spec fn known_timer_type(value: i32) -> Option<KnownTimerType> {
    match TimerType::spec_from_value(value) {
        Some(TimerType::BypassReminder) => Some(KnownTimerType::Bypass),
        Some(TimerType::Snooze) => Some(KnownTimerType::Snooze),
        _ => None,
    }
}

/// Why a timer to create or update is refused, checked in this order: a missing
/// device, a missing author, a missing end time, an end time out of range, a timer
/// type that names no stored kind. `None` where it is accepted.
pub open spec fn timer_input_refusal(timer: AlarmTimerView) -> Option<Seq<char>> {
    if timer.device.len() == 0 {
        Some(device_required_message())
    } else if timer.updated_by.len() == 0 {
        Some(updated_by_required_message())
    } else if timer.end_time is None {
        Some(end_time_required_message())
    } else if datetime_of(timer.end_time->0) is None {
        Some(timestamp_range_message())
    } else if known_timer_type(timer.timer_type) is None {
        Some(invalid_timer_type_message())
    } else {
        None
    }
}

/// Validates a timer to create or update: the device, the author and the end time are
/// required, the end time must be within chrono's range and the kind must be a stored
/// one. The device and the author are lowercased.
pub fn validate_timer_input(timer: AlarmTimer) -> (r: Result<ValidTimerInput, Status>)
    ensures
        r is Err <==> timer_input_refusal(timer@) is Some,
        r matches Err(s) ==> status_is(s, Code::InvalidArgument, timer_input_refusal(timer@)->0),
        r matches Ok(v) ==> {
            &&& v.device@ == lowercase(timer.device@)
            &&& v.updated_by@ == lowercase(timer.updated_by@)
            &&& Some(v.end_time@) == datetime_of(timer.end_time->0)
            &&& Some(v.timer_type) == known_timer_type(timer.timer_type)
        },
{
    if timer.device.as_str().is_empty() {
        return Err(Status::invalid_argument("\"device\" field is required."));
    }
    let device = to_lowercase(timer.device.as_str());
    if timer.updated_by.as_str().is_empty() {
        return Err(Status::invalid_argument("\"updated_by\" field is required."));
    }
    let updated_by = to_lowercase(timer.updated_by.as_str());
    let timestamp = match timer.end_time {
        None => return Err(Status::invalid_argument("\"end_time\" field is required.")),
        Some(time) => time,
    };
    let end_time = match timestamp_to_datetime(timestamp) {
        Ok(d) => d,
        Err(s) => return Err(s),
    };
    let parsed = match TimerType::try_from_i32(timer.timer_type) {
        Ok(t) => t,
        Err(_) => return Err(Status::invalid_argument("Invalid \"timer_type\" value.")),
    };
    let timer_type = match KnownTimerType::try_from(parsed) {
        Ok(k) => k,
        Err(s) => return Err(s),
    };
    Ok(ValidTimerInput { device, end_time, timer_type, updated_by })
}

/// Why a delete request is refused: a missing device, then a timer type that names no
/// stored kind. `None` where it is accepted.
pub open spec fn delete_request_refusal(device: Seq<char>, timer_type: i32) -> Option<Seq<char>> {
    if device.len() == 0 {
        Some(device_required_message())
    } else if known_timer_type(timer_type) is None {
        Some(invalid_timer_type_message())
    } else {
        None
    }
}

/// Validates a delete request: the device is required and the kind must be a stored
/// one. The device is lowercased.
pub fn validate_delete_request(request: DeleteRequest) -> (r: Result<ValidDeleteRequest, Status>)
    ensures
        r is Err <==> delete_request_refusal(request.device@, request.timer_type) is Some,
        r matches Err(s) ==> status_is(
            s,
            Code::InvalidArgument,
            delete_request_refusal(request.device@, request.timer_type)->0,
        ),
        r matches Ok(v) ==> {
            &&& v.device@ == lowercase(request.device@)
            &&& Some(v.timer_type) == known_timer_type(request.timer_type)
        },
{
    if request.device.as_str().is_empty() {
        return Err(Status::invalid_argument("\"device\" field is required."));
    }
    let parsed = match TimerType::try_from_i32(request.timer_type) {
        Ok(t) => t,
        Err(_) => return Err(Status::invalid_argument("Invalid \"timer_type\" value.")),
    };
    let device = to_lowercase(request.device.as_str());
    let timer_type = match KnownTimerType::try_from(parsed) {
        Ok(k) => k,
        Err(s) => return Err(s),
    };
    Ok(ValidDeleteRequest { device, timer_type })
}

/// Why a read request is refused: a number that names no kind; then, for bypass
/// reminders, a missing user; then the kind `Unknown`. `None` where it is accepted.
pub open spec fn read_request_refusal(timer_type: i32, user: Seq<char>) -> Option<Seq<char>> {
    match TimerType::spec_from_value(timer_type) {
        None => Some(invalid_timer_type_message()),
        Some(TimerType::BypassReminder) => if user.len() == 0 {
            Some(user_required_message())
        } else {
            None
        },
        Some(TimerType::Snooze) => None,
        Some(TimerType::Unknown) => Some(invalid_timer_type_message()),
    }
}

/// Validates a read request: the kind must be a stored one, and a read of bypass
/// reminders needs a user, which is lowercased. A read of snooze timers ignores the
/// user and keeps an empty one.
pub fn validate_read_request(request: ReadRequest) -> (r: Result<ValidReadRequest, Status>)
    ensures
        r is Err <==> read_request_refusal(request.timer_type, request.user@) is Some,
        r matches Err(s) ==> status_is(
            s,
            Code::InvalidArgument,
            read_request_refusal(request.timer_type, request.user@)->0,
        ),
        r matches Ok(v) ==> {
            &&& Some(v.timer_type) == known_timer_type(request.timer_type)
            &&& v.timer_type == KnownTimerType::Bypass ==> v.user@ == lowercase(request.user@)
            &&& v.timer_type == KnownTimerType::Snooze ==> v.user@ == Seq::<char>::empty()
        },
{
    let parsed = match TimerType::try_from_i32(request.timer_type) {
        Ok(t) => t,
        Err(_) => return Err(Status::invalid_argument("Invalid \"timer_type\" value.")),
    };
    let user = match parsed {
        TimerType::BypassReminder => {
            if request.user.as_str().is_empty() {
                return Err(
                    Status::invalid_argument("\"user\" field is required for reminder queries."),
                );
            }
            to_lowercase(request.user.as_str())
        },
        _ => String::new(),
    };
    let timer_type = match KnownTimerType::try_from(parsed) {
        Ok(k) => k,
        Err(s) => return Err(s),
    };
    Ok(ValidReadRequest { timer_type, user })
}

/// The requests that are accepted, stated by wire numbers: a timer to create or update
/// needs a device, an author, an end time that chrono accepts and the number of a
/// bypass reminder or a snooze timer; a delete request needs a device and one of those
/// two numbers; a read request needs the number of a snooze timer, or that of a bypass
/// reminder together with a user. The kind that an accepted number names is the kind
/// of that number.
pub proof fn lemma_accepted_requests(
    timer: AlarmTimerView,
    device: Seq<char>,
    timer_type: i32,
    user: Seq<char>,
)
    ensures
        timer_input_refusal(timer) is None <==> {
            &&& timer.device.len() > 0
            &&& timer.updated_by.len() > 0
            &&& timer.end_time is Some
            &&& crate::datetime::chrono_accepts_timestamp(
                timer.end_time->0.seconds,
                timer.end_time->0.nanos as u32,
            )
            &&& (timer.timer_type == 1 || timer.timer_type == 2)
        },
        delete_request_refusal(device, timer_type) is None <==> device.len() > 0 && (timer_type
            == 1 || timer_type == 2),
        read_request_refusal(timer_type, user) is None <==> timer_type == 2 || (timer_type == 1
            && user.len() > 0),
        timer_type == 1 ==> known_timer_type(timer_type) == Some(KnownTimerType::Bypass)
            && KnownTimerType::Bypass.timer_type().spec_value() == 1,
        timer_type == 2 ==> known_timer_type(timer_type) == Some(KnownTimerType::Snooze)
            && KnownTimerType::Snooze.timer_type().spec_value() == 2,
        timer_type != 1 && timer_type != 2 ==> known_timer_type(timer_type) is None,
{
}

/// Builds the insertion of a validated timer: device, end time, kind name, author.
pub fn create_timer_query(timer: ValidTimerInput) -> (q: ParameterizedQuery)
    ensures
        q.query@ == CREATE_TIMER_QUERY@,
        q.bound() == seq![
            ParameterView::Str(timer.device@),
            ParameterView::DateTime(timer.end_time@),
            ParameterView::Str(timer.timer_type.timer_type().spec_str_name()),
            ParameterView::Str(timer.updated_by@),
        ],
{
    let mut q = ParameterizedQuery::new(CREATE_TIMER_QUERY);
    let kind = timer.timer_type.as_string_name();
    q.bind(QueryParameter::Str(timer.device));
    q.bind(QueryParameter::DateTime(timer.end_time));
    q.bind(QueryParameter::Str(kind));
    q.bind(QueryParameter::Str(timer.updated_by));
    q
}

/// Builds the deletion of the timer of one kind on one device: device, kind name.
pub fn delete_timer_query(timer: ValidDeleteRequest) -> (q: ParameterizedQuery)
    ensures
        q.query@ == DELETE_TIMER_QUERY@,
        q.bound() == seq![
            ParameterView::Str(timer.device@),
            ParameterView::Str(timer.timer_type.timer_type().spec_str_name()),
        ],
{
    let mut q = ParameterizedQuery::new(DELETE_TIMER_QUERY);
    let kind = timer.timer_type.as_string_name();
    q.bind(QueryParameter::Str(timer.device));
    q.bind(QueryParameter::Str(kind));
    q
}

/// Builds the update of a validated timer: end time, author, device, kind name.
pub fn update_timer_query(timer: ValidTimerInput) -> (q: ParameterizedQuery)
    ensures
        q.query@ == UPDATE_TIMER_QUERY@,
        q.bound() == seq![
            ParameterView::DateTime(timer.end_time@),
            ParameterView::Str(timer.updated_by@),
            ParameterView::Str(timer.device@),
            ParameterView::Str(timer.timer_type.timer_type().spec_str_name()),
        ],
{
    let mut q = ParameterizedQuery::new(UPDATE_TIMER_QUERY);
    let kind = timer.timer_type.as_string_name();
    q.bind(QueryParameter::DateTime(timer.end_time));
    q.bind(QueryParameter::Str(timer.updated_by));
    q.bind(QueryParameter::Str(timer.device));
    q.bind(QueryParameter::Str(kind));
    q
}

/// Builds the read of the bypass reminders of the request's user: kind name, user.
pub fn bypass_reminders_query(request: ValidReadRequest) -> (q: ParameterizedQuery)
    ensures
        q.query@ == READ_USER_BYPASS_REMINDERS_QUERY@,
        q.bound() == seq![
            ParameterView::Str(request.timer_type.timer_type().spec_str_name()),
            ParameterView::Str(request.user@),
        ],
{
    let mut q = ParameterizedQuery::new(READ_USER_BYPASS_REMINDERS_QUERY);
    let kind = request.timer_type.as_string_name();
    q.bind(QueryParameter::Str(kind));
    q.bind(QueryParameter::Str(request.user));
    q
}

/// Builds the read of all snooze timers, which binds nothing.
pub fn snooze_timers_query() -> (q: ParameterizedQuery)
    ensures
        q.query@ == READ_SNOOZE_TIMERS@,
        q.bound() == Seq::<ParameterView>::empty(),
{
    ParameterizedQuery::new(READ_SNOOZE_TIMERS)
}

/// The read that a validated read request asks for: all snooze timers, or the bypass
/// reminders of its user.
pub fn read_timers_query(request: ValidReadRequest) -> (q: ParameterizedQuery)
    ensures
        request.timer_type == KnownTimerType::Snooze ==> q.query@ == READ_SNOOZE_TIMERS@
            && q.bound() == Seq::<ParameterView>::empty(),
        request.timer_type == KnownTimerType::Bypass ==> q.query@
            == READ_USER_BYPASS_REMINDERS_QUERY@ && q.bound() == seq![
            ParameterView::Str(TimerType::BypassReminder.spec_str_name()),
            ParameterView::Str(request.user@),
        ],
{
    match request.timer_type {
        KnownTimerType::Snooze => snooze_timers_query(),
        KnownTimerType::Bypass => bypass_reminders_query(request),
    }
}

/// The wire number of the kind whose stored name is `name`; a name of no kind counts
/// as `Unknown`.
pub open spec fn stored_type_value(name: Seq<char>) -> i32 {
    match TimerType::spec_from_str_name(name) {
        Some(t) => t.spec_value(),
        None => TimerType::Unknown.spec_value(),
    }
}

/// The timer that one result row holds, or the details of the first column that
/// cannot be read (device, end time, kind, update time, author, in that order).
pub open spec fn row_to_timer(row: DataRow) -> Result<AlarmTimerView, Seq<char>> {
    match row_text(row, "device"@) {
        Err(e) => Err(e),
        Ok(device) => match row_datetime(row, "end_time"@) {
            Err(e) => Err(e),
            Ok(end_time) => match row_text(row, "timer_type"@) {
                Err(e) => Err(e),
                Ok(kind) => match row_datetime(row, "updated_at"@) {
                    Err(e) => Err(e),
                    Ok(updated_at) => match row_text(row, "updated_by"@) {
                        Err(e) => Err(e),
                        Ok(updated_by) => Ok(
                            AlarmTimerView {
                                device,
                                end_time: Some(timestamp_of(end_time)),
                                timer_type: stored_type_value(kind),
                                updated_at: Some(timestamp_of(updated_at)),
                                updated_by,
                            },
                        ),
                    },
                },
            },
        },
    }
}

/// The timers that the result rows hold, in row order, or the details of the first
/// row that cannot be read.
pub open spec fn rows_to_timer_views(rows: Seq<DataRow>) -> Result<Seq<AlarmTimerView>, Seq<char>>
    decreases rows.len(),
{
    if rows.len() == 0 {
        Ok(Seq::empty())
    } else {
        match rows_to_timer_views(rows.drop_last()) {
            Err(e) => Err(e),
            Ok(timers) => match row_to_timer(rows.last()) {
                Err(e) => Err(e),
                Ok(t) => Ok(timers.push(t)),
            },
        }
    }
}

/// The kind name that `create` and `update` store for a timer reads back, through
/// `rows_to_timers`, as the wire number of the same kind.
pub proof fn lemma_stored_kind_reads_back(kind: KnownTimerType)
    ensures
        stored_type_value(kind.timer_type().spec_str_name()) == kind.timer_type().spec_value(),
{
    crate::timer_type::lemma_str_name_round_trip(kind.timer_type());
}

/// A successful read of the timer rows yields one timer per row.
pub proof fn lemma_timers_one_per_row(rows: Seq<DataRow>)
    ensures
        rows_to_timer_views(rows) matches Ok(ts) ==> ts.len() == rows.len(),
    decreases rows.len(),
{
    if rows.len() > 0 {
        lemma_timers_one_per_row(rows.drop_last());
    }
}

/// The wire number that a stored kind name reads back as: that of the kind of that
/// Protobuf name, `Unknown`'s for a name of no kind.
pub proof fn lemma_stored_names_read_as_their_kinds(name: Seq<char>)
    ensures
        name == TimerType::Snooze.spec_str_name() ==> stored_type_value(name) == 2,
        name == TimerType::BypassReminder.spec_str_name() ==> stored_type_value(name) == 1,
        name != TimerType::Snooze.spec_str_name() && name
            != TimerType::BypassReminder.spec_str_name() ==> stored_type_value(name) == 0,
{
    reveal_strlit("TimerType_UNKNOWN");
    reveal_strlit("TimerType_BYPASS_REMINDER");
    reveal_strlit("TimerType_SNOOZE");
    assert("TimerType_UNKNOWN"@.len() == 17);
    assert("TimerType_BYPASS_REMINDER"@.len() == 25);
    assert("TimerType_SNOOZE"@.len() == 16);
}

/// Every timer read from the rows stands at the position of its row and carries what
/// that row's columns hold: the device, the end time and the update time as the
/// timestamps of the row's `end_time` and `updated_at` columns, the kind whose stored
/// name the row holds, and the author. A read succeeds exactly where every row can be
/// read.
pub proof fn lemma_timers_come_from_their_rows(rows: Seq<DataRow>)
    ensures
        rows_to_timer_views(rows) is Ok <==> forall|i: int|
            0 <= i < rows.len() ==> {
                &&& row_text(#[trigger] rows[i], "device"@) is Ok
                &&& row_datetime(rows[i], "end_time"@) is Ok
                &&& row_text(rows[i], "timer_type"@) is Ok
                &&& row_datetime(rows[i], "updated_at"@) is Ok
                &&& row_text(rows[i], "updated_by"@) is Ok
            },
        rows_to_timer_views(rows) matches Ok(ts) ==> ts.len() == rows.len() && forall|i: int|
            0 <= i < rows.len() ==> {
                &&& row_text(#[trigger] rows[i], "device"@) == Ok::<Seq<char>, Seq<char>>(
                    ts[i].device,
                )
                &&& ts[i].end_time == Some(timestamp_of(row_datetime(rows[i], "end_time"@)->Ok_0))
                &&& ts[i].updated_at == Some(
                    timestamp_of(row_datetime(rows[i], "updated_at"@)->Ok_0),
                )
                &&& ts[i].timer_type == match TimerType::spec_from_str_name(
                    row_text(rows[i], "timer_type"@)->Ok_0,
                ) {
                    Some(t) => t.spec_value(),
                    None => 0,
                }
                &&& row_text(rows[i], "updated_by"@) == Ok::<Seq<char>, Seq<char>>(
                    ts[i].updated_by,
                )
            },
    decreases rows.len(),
{
    if rows.len() > 0 {
        let d = rows.drop_last();
        lemma_timers_come_from_their_rows(d);
        assert forall|i: int| 0 <= i < d.len() implies d[i] == rows[i] by {}
        assert(rows[rows.len() - 1] == rows.last());
        if rows_to_timer_views(rows) is Ok {
            let ts = rows_to_timer_views(rows)->Ok_0;
            let td = rows_to_timer_views(d)->Ok_0;
            assert(ts == td.push(row_to_timer(rows.last())->Ok_0));
            assert forall|i: int| 0 <= i < d.len() implies ts[i] == td[i] by {}
        }
        if forall|i: int|
            0 <= i < rows.len() ==> {
                &&& row_text(#[trigger] rows[i], "device"@) is Ok
                &&& row_datetime(rows[i], "end_time"@) is Ok
                &&& row_text(rows[i], "timer_type"@) is Ok
                &&& row_datetime(rows[i], "updated_at"@) is Ok
                &&& row_text(rows[i], "updated_by"@) is Ok
            } {
            assert(rows_to_timer_views(d) is Ok);
        }
    }
}

/// Once a prefix of the rows fails to read, the whole sequence fails with the same
/// error.
proof fn lemma_timer_error_persists(rows: Seq<DataRow>, k: int)
    requires
        0 <= k <= rows.len(),
        rows_to_timer_views(rows.take(k)) is Err,
    ensures
        rows_to_timer_views(rows) == rows_to_timer_views(rows.take(k)),
    decreases rows.len() - k,
{
    if k < rows.len() {
        assert(rows.take(k + 1).drop_last() =~= rows.take(k));
        lemma_timer_error_persists(rows, k + 1);
    } else {
        assert(rows.take(k) =~= rows);
    }
}

/// Reads one result row as a timer.
fn row_to_alarm_timer(row: &DataRow) -> (r: Result<AlarmTimer, DataStoreError>)
    ensures
        r is Ok <==> row_to_timer(*row) is Ok,
        r matches Ok(t) ==> row_to_timer(*row) == Ok::<AlarmTimerView, Seq<char>>(t@),
        r matches Err(e) ==> row_to_timer(*row) == Err::<AlarmTimerView, Seq<char>>(
            e.spec_details(),
        ),
{
    let device = match row.get_str("device") {
        Ok(v) => v,
        Err(e) => return Err(e),
    };
    let end_time = match row.get_datetime("end_time") {
        Ok(v) => datetime_to_timestamp(v),
        Err(e) => return Err(e),
    };
    let kind = match row.get_str("timer_type") {
        Ok(v) => v,
        Err(e) => return Err(e),
    };
    let timer_type = match TimerType::from_str_name(kind.as_str()) {
        Some(t) => t,
        None => TimerType::Unknown,
    };
    let updated_at = match row.get_datetime("updated_at") {
        Ok(v) => datetime_to_timestamp(v),
        Err(e) => return Err(e),
    };
    let updated_by = match row.get_str("updated_by") {
        Ok(v) => v,
        Err(e) => return Err(e),
    };
    Ok(AlarmTimer { device, end_time, timer_type: timer_type.value(), updated_at, updated_by })
}

/// Reads the result rows as timers, in row order; the first row that cannot be read
/// makes the whole read an error.
pub fn rows_to_timers(rows: Vec<DataRow>) -> (r: Result<Vec<AlarmTimer>, DataStoreError>)
    ensures
        r is Ok <==> rows_to_timer_views(rows@) is Ok,
        r matches Ok(ts) ==> rows_to_timer_views(rows@) == Ok::<Seq<AlarmTimerView>, Seq<char>>(
            ts@.map_values(|t: AlarmTimer| t@),
        ),
        r matches Err(e) ==> rows_to_timer_views(rows@) == Err::<Seq<AlarmTimerView>, Seq<char>>(
            e.spec_details(),
        ),
{
    let mut timers: Vec<AlarmTimer> = Vec::new();
    let mut i: usize = 0;
    assert(rows@.take(0) =~= Seq::<DataRow>::empty());
    assert(timers@.map_values(|t: AlarmTimer| t@) =~= Seq::<AlarmTimerView>::empty());
    while i < rows.len()
        invariant
            i <= rows@.len(),
            rows_to_timer_views(rows@.take(i as int)) == Ok::<Seq<AlarmTimerView>, Seq<char>>(
                timers@.map_values(|t: AlarmTimer| t@),
            ),
        decreases rows.len() - i,
    {
        assert(rows@.take(i + 1).drop_last() =~= rows@.take(i as int));
        assert(rows@.take(i + 1).last() == rows@[i as int]);
        match row_to_alarm_timer(&rows[i]) {
            Ok(t) => {
                let ghost before = timers@;
                let ghost view = t@;
                timers.push(t);
                assert(timers@.map_values(|t: AlarmTimer| t@) =~= before.map_values(
                    |t: AlarmTimer| t@,
                ).push(view));
            },
            Err(e) => {
                proof {
                    lemma_timer_error_persists(rows@, i as int + 1);
                }
                return Err(e);
            },
        }
        i = i + 1;
    }
    assert(rows@.take(rows@.len() as int) =~= rows@);
    Ok(timers)
}

pub open spec fn create_failure_message() -> Seq<char> {
    "Failed to set alarm timer. See server logs for details."@
}

pub open spec fn delete_failure_message() -> Seq<char> {
    "Failed to delete alarm timer. See server logs for details."@
}

pub open spec fn read_failure_message() -> Seq<char> {
    "Failed to fetch alarm timers. See server logs for details."@
}

pub open spec fn update_failure_message() -> Seq<char> {
    "Failed to update alarm timer. See server logs for details."@
}

/// The query that serves a `create` request, or the refusal of the request.
pub fn create_query(request: AlarmTimer) -> (r: Result<ParameterizedQuery, Status>)
    ensures
        r is Err <==> timer_input_refusal(request@) is Some,
        r matches Err(s) ==> status_is(s, Code::InvalidArgument, timer_input_refusal(request@)->0),
        r matches Ok(q) ==> {
            &&& q.query@ == CREATE_TIMER_QUERY@
            &&& q.bound() == seq![
                ParameterView::Str(lowercase(request.device@)),
                ParameterView::DateTime(datetime_of(request.end_time->0)->0),
                ParameterView::Str(known_timer_type(request.timer_type)->0.timer_type().spec_str_name()),
                ParameterView::Str(lowercase(request.updated_by@)),
            ]
        },
{
    match validate_timer_input(request) {
        Ok(timer) => Ok(create_timer_query(timer)),
        Err(s) => Err(s),
    }
}

/// The reply to a `create` request once the data store has run its query.
pub fn create_reply(outcome: Result<Vec<DataRow>, DataStoreError>) -> (r: Result<Empty, Status>)
    ensures
        r is Ok <==> outcome is Ok,
        r matches Err(s) ==> status_is(s, Code::Internal, create_failure_message()),
{
    match outcome {
        Ok(_) => Ok(Empty {}),
        Err(_) => Err(Status::internal("Failed to set alarm timer. See server logs for details.")),
    }
}

/// The query that serves a `delete` request, or the refusal of the request.
pub fn delete_query(request: DeleteRequest) -> (r: Result<ParameterizedQuery, Status>)
    ensures
        r is Err <==> delete_request_refusal(request.device@, request.timer_type) is Some,
        r matches Err(s) ==> status_is(
            s,
            Code::InvalidArgument,
            delete_request_refusal(request.device@, request.timer_type)->0,
        ),
        r matches Ok(q) ==> {
            &&& q.query@ == DELETE_TIMER_QUERY@
            &&& q.bound() == seq![
                ParameterView::Str(lowercase(request.device@)),
                ParameterView::Str(known_timer_type(request.timer_type)->0.timer_type().spec_str_name()),
            ]
        },
{
    match validate_delete_request(request) {
        Ok(valid) => Ok(delete_timer_query(valid)),
        Err(s) => Err(s),
    }
}

/// The reply to a `delete` request once the data store has run its query.
pub fn delete_reply(outcome: Result<Vec<DataRow>, DataStoreError>) -> (r: Result<Empty, Status>)
    ensures
        r is Ok <==> outcome is Ok,
        r matches Err(s) ==> status_is(s, Code::Internal, delete_failure_message()),
{
    match outcome {
        Ok(_) => Ok(Empty {}),
        Err(_) => Err(
            Status::internal("Failed to delete alarm timer. See server logs for details."),
        ),
    }
}

/// The query that serves a `read` request, or the refusal of the request.
pub fn read_query(request: ReadRequest) -> (r: Result<ParameterizedQuery, Status>)
    ensures
        r is Err <==> read_request_refusal(request.timer_type, request.user@) is Some,
        r matches Err(s) ==> status_is(
            s,
            Code::InvalidArgument,
            read_request_refusal(request.timer_type, request.user@)->0,
        ),
        r matches Ok(q) ==> known_timer_type(request.timer_type) == Some(KnownTimerType::Snooze)
            ==> q.query@ == READ_SNOOZE_TIMERS@ && q.bound() == Seq::<ParameterView>::empty(),
        r matches Ok(q) ==> known_timer_type(request.timer_type) == Some(KnownTimerType::Bypass)
            ==> q.query@ == READ_USER_BYPASS_REMINDERS_QUERY@ && q.bound() == seq![
            ParameterView::Str(TimerType::BypassReminder.spec_str_name()),
            ParameterView::Str(lowercase(request.user@)),
        ],
{
    match validate_read_request(request) {
        Ok(valid) => Ok(read_timers_query(valid)),
        Err(s) => Err(s),
    }
}

/// The reply to a `read` request once the data store has run its query: the timers in
/// row order, or an internal error where the query failed or a row cannot be read.
pub fn read_reply(outcome: Result<Vec<DataRow>, DataStoreError>) -> (r: Result<AlarmTimers, Status>)
    ensures
        r is Ok <==> (outcome matches Ok(rows) && rows_to_timer_views(rows@) is Ok),
        r matches Ok(reply) ==> outcome matches Ok(rows) && rows_to_timer_views(rows@) == Ok::<
            Seq<AlarmTimerView>,
            Seq<char>,
        >(reply.alarm_timers@.map_values(|t: AlarmTimer| t@)),
        r matches Err(s) ==> status_is(s, Code::Internal, read_failure_message()),
{
    let timers = match outcome {
        Ok(rows) => rows_to_timers(rows),
        Err(e) => Err(e),
    };
    match timers {
        Ok(alarm_timers) => Ok(AlarmTimers { alarm_timers }),
        Err(_) => Err(Status::internal("Failed to fetch alarm timers. See server logs for details.")),
    }
}

/// The query that serves an `update` request, or the refusal of the request.
pub fn update_query(request: AlarmTimer) -> (r: Result<ParameterizedQuery, Status>)
    ensures
        r is Err <==> timer_input_refusal(request@) is Some,
        r matches Err(s) ==> status_is(s, Code::InvalidArgument, timer_input_refusal(request@)->0),
        r matches Ok(q) ==> {
            &&& q.query@ == UPDATE_TIMER_QUERY@
            &&& q.bound() == seq![
                ParameterView::DateTime(datetime_of(request.end_time->0)->0),
                ParameterView::Str(lowercase(request.updated_by@)),
                ParameterView::Str(lowercase(request.device@)),
                ParameterView::Str(known_timer_type(request.timer_type)->0.timer_type().spec_str_name()),
            ]
        },
{
    match validate_timer_input(request) {
        Ok(timer) => Ok(update_timer_query(timer)),
        Err(s) => Err(s),
    }
}

/// The reply to an `update` request once the data store has run its query.
pub fn update_reply(outcome: Result<Vec<DataRow>, DataStoreError>) -> (r: Result<Empty, Status>)
    ensures
        r is Ok <==> outcome is Ok,
        r matches Err(s) ==> status_is(s, Code::Internal, update_failure_message()),
{
    match outcome {
        Ok(_) => Ok(Empty {}),
        Err(_) => Err(
            Status::internal("Failed to update alarm timer. See server logs for details."),
        ),
    }
}

} // verus!
