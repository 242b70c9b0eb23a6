//! The SQL behind the alarm timer service.

use vstd::prelude::*;

verus! {

/// Inserts a timer: device, end time, timer type name, updated by.
pub const CREATE_TIMER_QUERY: &'static str = "
    INSERT INTO alarmsapp.timers (device, end_time, timer_type, updated_by)
    VALUES (
        $1,
        $2, 
        (
            SELECT type_id 
            FROM alarmsapp.timer_types 
            WHERE type_name = $3
        ), 
        $4
    )
;";

/// Deletes a timer: device, timer type name.
pub const DELETE_TIMER_QUERY: &'static str = "
    DELETE FROM alarmsapp.timers t
    USING alarmsapp.timer_types tt
    WHERE t.timer_type = tt.type_id AND t.device = $1 AND tt.type_name = $2
;";

/// Reads the bypass reminders of one user: timer type name, user.
pub const READ_USER_BYPASS_REMINDERS_QUERY: &'static str = "
    SELECT
        device,
        end_time,
        type_name as timer_type,
        updated_at,
        updated_by
    FROM 
        alarmsapp.timers
    INNER JOIN alarmsapp.timer_types ON timer_type = type_id
    WHERE
        type_name = $1
        AND updated_by = $2
    ORDER BY
        device
;";

/// Reads all snooze timers.
pub const READ_SNOOZE_TIMERS: &'static str = "
    SELECT
        device,
        end_time,
        type_name as timer_type,
        updated_at,
        updated_by
    FROM 
        alarmsapp.timers
    INNER JOIN alarmsapp.timer_types ON timer_type = type_id
    WHERE
        type_name = 'TimerType_SNOOZE'
    ORDER BY
        device
;";

/// Updates a timer: end time, updated by, device, timer type name.
pub const UPDATE_TIMER_QUERY: &'static str = "
    UPDATE alarmsapp.timers
    SET end_time = $1, updated_by = $2
    FROM alarmsapp.timer_types
    WHERE timer_type = type_id AND device = $3 AND type_name = $4
;";

} // verus!
