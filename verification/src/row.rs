//! The rows that queries return and the parameterized queries that the services send.

use vstd::prelude::*;
use crate::datetime::DateTimeUtc;
use crate::error::DataStoreError;

verus! {

/// A value read from one column of a result row.
#[derive(Debug)]
pub enum DataValue {
    Str(String),
    Bool(bool),
    Int(i32),
    DateTime(DateTimeUtc),
    Null,
}

/// One row of a query result: values by column name.
#[derive(Debug)]
pub struct DataRow {
    columns: Vec<(String, DataValue)>,
}

/// The value of the first column named `name`, if there is one.
pub open spec fn column_lookup(columns: Seq<(String, DataValue)>, name: Seq<char>) -> Option<
    DataValue,
>
    decreases columns.len(),
{
    if columns.len() == 0 {
        None
    } else if columns[0].0@ == name {
        Some(columns[0].1)
    } else {
        column_lookup(columns.drop_first(), name)
    }
}

/// A row's value under a name is that of its first column of that name: where a column
/// of that name exists, the lookup gives the value of the earliest one, and otherwise
/// nothing.
pub proof fn lemma_column_lookup_first(columns: Seq<(String, DataValue)>, name: Seq<char>)
    ensures
        column_lookup(columns, name) is None <==> forall|i: int|
            0 <= i < columns.len() ==> (#[trigger] columns[i]).0@ != name,
        forall|i: int|
            0 <= i < columns.len() && (#[trigger] columns[i]).0@ == name && (forall|j: int|
                0 <= j < i ==> columns[j].0@ != name) ==> column_lookup(columns, name) == Some(
                columns[i].1,
            ),
    decreases columns.len(),
{
    if columns.len() > 0 {
        let rest = columns.drop_first();
        lemma_column_lookup_first(rest, name);
        assert forall|i: int| 0 <= i < rest.len() implies rest[i] == columns[i + 1] by {}
        if columns[0].0@ != name {
            assert forall|i: int|
                0 <= i < columns.len() && (#[trigger] columns[i]).0@ == name && (forall|j: int|
                    0 <= j < i ==> columns[j].0@ != name) implies column_lookup(columns, name)
                == Some(columns[i].1) by {
                assert(i > 0);
                assert(rest[i - 1] == columns[i]);
                assert forall|j: int| 0 <= j < i - 1 implies rest[j].0@ != name by {
                    assert(rest[j] == columns[j + 1]);
                }
            }
            if forall|i: int| 0 <= i < rest.len() ==> (#[trigger] rest[i]).0@ != name {
                assert forall|i: int| 0 <= i < columns.len() implies (#[trigger] columns[i]).0@
                    != name by {
                    if i > 0 {
                        assert(rest[i - 1] == columns[i]);
                    }
                }
            }
        }
    }
}

/// The details of the error raised when column `name` does not hold a value of the
/// kind `kind`.
pub open spec fn column_error_details(name: Seq<char>, kind: Seq<char>) -> Seq<char> {
    "column `"@ + name + "` does not hold a "@ + kind + " value"@
}

impl View for DataRow {
    type V = Seq<(String, DataValue)>;

    closed spec fn view(&self) -> Seq<(String, DataValue)> {
        self.columns@
    }
}

/// The text in column `name` of `row`, or the details of the error raised for it.
pub open spec fn row_text(row: DataRow, name: Seq<char>) -> Result<Seq<char>, Seq<char>> {
    match column_lookup(row@, name) {
        Some(DataValue::Str(s)) => Ok(s@),
        _ => Err(column_error_details(name, "text"@)),
    }
}

/// The boolean in column `name` of `row`, or the details of the error raised for it.
pub open spec fn row_bool(row: DataRow, name: Seq<char>) -> Result<bool, Seq<char>> {
    match column_lookup(row@, name) {
        Some(DataValue::Bool(b)) => Ok(b),
        _ => Err(column_error_details(name, "boolean"@)),
    }
}

/// The integer in column `name` of `row`, or the details of the error raised for it.
pub open spec fn row_int(row: DataRow, name: Seq<char>) -> Result<i32, Seq<char>> {
    match column_lookup(row@, name) {
        Some(DataValue::Int(i)) => Ok(i),
        _ => Err(column_error_details(name, "integer"@)),
    }
}

/// The date-time in column `name` of `row`, or the details of the error raised for it.
pub open spec fn row_datetime(row: DataRow, name: Seq<char>) -> Result<(i64, u32), Seq<char>> {
    match column_lookup(row@, name) {
        Some(DataValue::DateTime(d)) => Ok(d@),
        _ => Err(column_error_details(name, "date-time"@)),
    }
}

fn column_error(name: &str, kind: &str) -> (e: DataStoreError)
    ensures
        e.spec_details() == column_error_details(name@, kind@),
{
    let mut details = String::from_str("column `");
    details.append(name);
    details.append("` does not hold a ");
    details.append(kind);
    details.append(" value");
    DataStoreError::new(details)
}

impl DataRow {
    /// A row without columns.
    pub fn new() -> (row: DataRow)
        ensures
            row@ == Seq::<(String, DataValue)>::empty(),
    {
        DataRow { columns: Vec::new() }
    }

    /// The row with one more column, `column`, holding `value`.
    pub fn with(self, column: &str, value: DataValue) -> (row: DataRow)
        ensures
            row@.len() == self@.len() + 1,
            row@.drop_last() == self@,
            row@.last().0@ == column@,
            row@.last().1 == value,
    {
        let mut columns = self.columns;
        columns.push((String::from_str(column), value));
        DataRow { columns }
    }

    /// The value of the first column named `name`.
    pub fn get(&self, name: &str) -> (v: Option<&DataValue>)
        ensures
            v matches Some(v) ==> column_lookup(self@, name@) == Some(*v),
            v is None ==> column_lookup(self@, name@) is None,
    {
        let wanted = String::from_str(name);
        let mut i: usize = 0;
        assert(self.columns@.skip(0) =~= self.columns@);
        while i < self.columns.len()
            invariant
                i <= self.columns@.len(),
                wanted@ == name@,
                column_lookup(self.columns@, name@) == column_lookup(self.columns@.skip(i as int), name@),
            decreases self.columns.len() - i,
        {
            if self.columns[i].0 == wanted {
                return Some(&self.columns[i].1);
            }
            assert(self.columns@.skip(i as int).drop_first() =~= self.columns@.skip(i + 1));
            i = i + 1;
        }
        None
    }

    /// The text in column `name`; an error where the column is missing or holds
    /// something else.
    pub fn get_str(&self, name: &str) -> (r: Result<String, DataStoreError>)
        ensures
            r is Ok <==> row_text(*self, name@) is Ok,
            r matches Ok(s) ==> row_text(*self, name@) == Ok::<Seq<char>, Seq<char>>(s@),
            r matches Err(e) ==> row_text(*self, name@) == Err::<Seq<char>, Seq<char>>(e.spec_details()),
    {
        match self.get(name) {
            Some(DataValue::Str(s)) => Ok(s.clone()),
            _ => Err(column_error(name, "text")),
        }
    }

    /// The boolean in column `name`; an error where the column is missing or holds
    /// something else.
    pub fn get_bool(&self, name: &str) -> (r: Result<bool, DataStoreError>)
        ensures
            r is Ok <==> row_bool(*self, name@) is Ok,
            r matches Ok(b) ==> row_bool(*self, name@) == Ok::<bool, Seq<char>>(b),
            r matches Err(e) ==> row_bool(*self, name@) == Err::<bool, Seq<char>>(e.spec_details()),
    {
        match self.get(name) {
            Some(DataValue::Bool(b)) => Ok(*b),
            _ => Err(column_error(name, "boolean")),
        }
    }

    /// The integer in column `name`; an error where the column is missing or holds
    /// something else.
    pub fn get_int(&self, name: &str) -> (r: Result<i32, DataStoreError>)
        ensures
            r is Ok <==> row_int(*self, name@) is Ok,
            r matches Ok(i) ==> row_int(*self, name@) == Ok::<i32, Seq<char>>(i),
            r matches Err(e) ==> row_int(*self, name@) == Err::<i32, Seq<char>>(e.spec_details()),
    {
        match self.get(name) {
            Some(DataValue::Int(i)) => Ok(*i),
            _ => Err(column_error(name, "integer")),
        }
    }

    /// The date-time in column `name`; an error where the column is missing or holds
    /// something else.
    pub fn get_datetime(&self, name: &str) -> (r: Result<DateTimeUtc, DataStoreError>)
        ensures
            r is Ok <==> row_datetime(*self, name@) is Ok,
            r matches Ok(d) ==> row_datetime(*self, name@) == Ok::<(i64, u32), Seq<char>>(d@),
            r matches Err(e) ==> row_datetime(*self, name@) == Err::<(i64, u32), Seq<char>>(
                e.spec_details(),
            ),
    {
        match self.get(name) {
            Some(DataValue::DateTime(d)) => Ok(*d),
            _ => Err(column_error(name, "date-time")),
        }
    }
}

/// A value bound to a placeholder of a parameterized query.
#[derive(Debug)]
pub enum QueryParameter {
    Str(String),
    DateTime(DateTimeUtc),
}

/// What a query parameter stands for: a text or the seconds and nanoseconds of a
/// date-time.
pub enum ParameterView {
    Str(Seq<char>),
    DateTime((i64, u32)),
}

impl View for QueryParameter {
    type V = ParameterView;

    open spec fn view(&self) -> ParameterView {
        match self {
            QueryParameter::Str(s) => ParameterView::Str(s@),
            QueryParameter::DateTime(d) => ParameterView::DateTime(d@),
        }
    }
}

/// A query with placeholders `$1`, `$2`, ... and the values bound to them, in order.
#[derive(Debug)]
pub struct ParameterizedQuery {
    pub query: String,
    pub parameters: Vec<QueryParameter>,
}

impl ParameterizedQuery {
    /// The values bound so far, in order.
    pub open spec fn bound(&self) -> Seq<ParameterView> {
        self.parameters@.map_values(|p: QueryParameter| p@)
    }

    /// A query with nothing bound yet.
    pub fn new(query: &str) -> (q: ParameterizedQuery)
        ensures
            q.query@ == query@,
            q.bound() == Seq::<ParameterView>::empty(),
    {
        let q = ParameterizedQuery { query: String::from_str(query), parameters: Vec::new() };
        assert(q.bound() =~= Seq::<ParameterView>::empty());
        q
    }

    /// Binds the next placeholder to `parameter`.
    pub fn bind(&mut self, parameter: QueryParameter)
        ensures
            final(self).query@ == old(self).query@,
            final(self).bound() == old(self).bound().push(parameter@),
    {
        self.parameters.push(parameter);
        assert(self.bound() =~= old(self).bound().push(parameter@));
    }
}

} // verus!
