//! A sample persisted type: the `users(id, name, age)` table. It shows what
//! an implementation of the entity contract looks like and gives the
//! library a concrete type to exercise; its invariant is that the key and
//! the name are non-empty.

use vstd::prelude::*;
use vstd::string::StringExecFns;
use vstd::string::StrSliceExecFns;
use crate::errors::OrmError;
use crate::model::Model;
use crate::table::RowView;

verus! {

/// One row of `users(id, name, age)`. All three cells are stored, none
/// NULL; values are kept as text, as the engine stores them.
#[derive(Debug)]
pub struct User {
    pub id: String,
    pub name: String,
    pub age: String,
}

impl Model for User {
    open spec fn spec_table_name() -> Seq<char> {
        "users"@
    }

    open spec fn spec_primary_key() -> Seq<char> {
        "id"@
    }

    open spec fn spec_columns() -> Seq<Seq<char>> {
        seq!["id"@, "name"@, "age"@]
    }

    open spec fn valid(&self) -> bool {
        self.id@.len() > 0 && self.name@.len() > 0
    }

    open spec fn row_of(&self) -> RowView {
        seq![
            Option::Some(self.id@),
            Option::Some(self.name@),
            Option::Some(self.age@),
        ]
    }

    open spec fn spec_decodable(row: RowView) -> bool {
        row.len() == 3 && row[0] is Some && row[1] is Some && row[2] is Some
    }

    fn table_name() -> (r: String) {
        String::from_str("users")
    }

    fn primary_key() -> (r: String) {
        String::from_str("id")
    }

    fn columns() -> (r: Vec<String>) {
        let mut r: Vec<String> = Vec::new();
        r.push(String::from_str("id"));
        r.push(String::from_str("name"));
        r.push(String::from_str("age"));
        proof {
            assert(r.deep_view() =~= Self::spec_columns());
        }
        r
    }

    fn validate(&self) -> (r: Result<(), OrmError>) {
        if self.id.as_str().unicode_len() == 0 {
            Err(OrmError::ValidationError(String::from_str("id must not be empty")))
        } else if self.name.as_str().unicode_len() == 0 {
            Err(OrmError::ValidationError(String::from_str("name must not be empty")))
        } else {
            Ok(())
        }
    }

    fn to_row(&self) -> (r: Vec<Option<String>>) {
        let mut r: Vec<Option<String>> = Vec::new();
        r.push(Option::Some(self.id.clone()));
        r.push(Option::Some(self.name.clone()));
        r.push(Option::Some(self.age.clone()));
        proof {
            assert(r.deep_view() =~= self.row_of());
        }
        r
    }

    fn from_row(row: &Vec<Option<String>>) -> (r: Result<Self, OrmError>) {
        if row.len() != 3 {
            return Err(OrmError::QueryError(String::from_str("row does not have three cells")));
        }
        let id = match &row[0] {
            Option::Some(s) => s.clone(),
            Option::None => {
                return Err(OrmError::QueryError(String::from_str("id cell is null")));
            },
        };
        let name = match &row[1] {
            Option::Some(s) => s.clone(),
            Option::None => {
                return Err(OrmError::QueryError(String::from_str("name cell is null")));
            },
        };
        let age = match &row[2] {
            Option::Some(s) => s.clone(),
            Option::None => {
                return Err(OrmError::QueryError(String::from_str("age cell is null")));
            },
        };
        let m = User { id, name, age };
        proof {
            assert(row.deep_view()[0] == row@[0].deep_view());
            assert(row.deep_view()[1] == row@[1].deep_view());
            assert(row.deep_view()[2] == row@[2].deep_view());
            assert(m.row_of() =~= row.deep_view());
        }
        Ok(m)
    }
}

} // verus!
