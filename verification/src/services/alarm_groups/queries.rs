//! The SQL behind the alarm groups service.

use vstd::prelude::*;

verus! {

/// The details of the requested groups, down to the device level: a recursive common
/// table expression gathers the children, grandchildren and so on of each requested
/// top-level group. The requested group names are bound to the placeholders that go
/// between this head and `GROUP_DETAILS_QUERY_TAIL`.
pub const GROUP_DETAILS_QUERY_HEAD: &'static str = "
    WITH RECURSIVE members AS (
        SELECT 
            group_name,
            member_name,
            member_is_group
        FROM 
            alarmsapp.group_membership
        WHERE
            group_name IN (";

/// The rest of the group details query, after the placeholders of the requested groups.
pub const GROUP_DETAILS_QUERY_TAIL: &'static str = ")
        UNION ALL
        SELECT
            gm.group_name,
            gm.member_name,
            gm.member_is_group
        FROM 
            alarmsapp.group_membership gm 
            INNER JOIN members m 
                ON gm.group_name = m.member_name
    )
    SELECT 
        g.group_name,
        g.description,
        g.updated_at,
        g.updated_by,
        EXISTS (
            SELECT 
            FROM alarmsapp.user_layouts u
            WHERE g.group_name = u.group_name
        ) AS group_is_user_category,
        m.member_name,
        m.member_is_group
    FROM
        alarmsapp.groups g
        INNER JOIN members m
            ON g.group_name = m.group_name
    ORDER BY 
        g.group_name, 
        m.member_name
    ;
";

/// The metadata of every alarm group.
pub const ALL_GROUPS_METADATA_QUERY: &'static str = "
    SELECT 
        g.group_name,
        g.description,
        g.updated_at,
        g.updated_by,
        EXISTS (
            SELECT
            FROM alarmsapp.user_layouts u
            WHERE g.group_name = u.group_name
        ) AS group_is_user_category
    FROM 
        alarmsapp.groups g
    ORDER BY
        group_name
    ;
";

} // verus!
