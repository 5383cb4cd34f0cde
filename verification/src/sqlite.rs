//! The SQLite dialect.

use vstd::prelude::*;
use vstd::string::*;
use crate::query::QueryPrepare;
use crate::text::{decimal, push_decimal};

verus! {

/// A store kept in an SQLite database. Its statements are those of the
/// PostgreSQL backend but for the placeholders, which are written `?N`.
#[derive(Clone, Copy, Debug, PartialEq, Eq, Structural)]
pub struct SqliteStore;

impl QueryPrepare for SqliteStore {
    open spec fn spec_placeholder(index: int) -> Seq<char> {
        seq!['?'] + decimal(index)
    }

    fn placeholder(index: i64) -> (s: String) {
        proof {
            reveal_strlit("?");
        }
        let mut s = String::from_str("?");
        push_decimal(&mut s, index);
        assert(s@ =~= seq!['?'] + decimal(index as int));
        s
    }
}

} // verus!
