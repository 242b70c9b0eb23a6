//! The SQL behind the user layouts service.

use vstd::prelude::*;

verus! {

/// Reads every user's layout entries: user name, group name.
pub const GET_ALL_LAYOUTS_QUERY: &'static str = "
    SELECT 
        user_name,
        group_name
    FROM
        alarmsapp.user_layouts
    ORDER BY
        user_name,
        group_name
;";

} // verus!
