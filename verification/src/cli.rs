//! The two report-shaping switches: which key orders the report and which
//! dimension buckets the per-file tallies.

use vstd::prelude::*;
use vstd::string::StringExecFnsIsAscii;
use vstd::string::StringExecFns;
use crate::strutil::str_eq;

verus! {

/// The key the report rows are ordered by.
#[derive(Debug, PartialEq, Eq, Structural, Clone, Copy)]
pub enum SortBy {
    Group,
    NumFiles,
    Tokens,
}

/// The dimension that buckets per-file tallies into groups.
#[derive(Debug, PartialEq, Eq, Structural, Clone, Copy)]
pub enum GroupBy {
    Language,
    File,
    Arg,
}

impl SortBy {
    /// Reads a sort key from its command-line spelling; rejects anything but
    /// `group`, `numfiles` and `tokens`.
    pub fn parse(s: &str) -> (r: Result<SortBy, String>)
        ensures
            r is Ok <==> (s@ == "group"@ || s@ == "numfiles"@ || s@ == "tokens"@),
            s@ == "group"@ ==> r == Ok::<SortBy, String>(SortBy::Group),
            s@ == "numfiles"@ ==> r == Ok::<SortBy, String>(SortBy::NumFiles),
            s@ == "tokens"@ ==> r == Ok::<SortBy, String>(SortBy::Tokens),
    {
        proof {
            reveal_strlit("group");
            reveal_strlit("numfiles");
            reveal_strlit("tokens");
            assert("group"@.len() == 5);
            assert("numfiles"@.len() == 8);
            assert("group"@ != "numfiles"@);
        }
        if str_eq(s, "group") {
            Ok(SortBy::Group)
        } else if str_eq(s, "numfiles") {
            Ok(SortBy::NumFiles)
        } else if str_eq(s, "tokens") {
            Ok(SortBy::Tokens)
        } else {
            let mut msg = String::from_str("\"");
            msg.append(s);
            msg.append("\" is not a supported argument to --sort-by. Use one of group|numfiles|tokens");
            Err(msg)
        }
    }
}

impl std::str::FromStr for SortBy {
    type Err = String;

    fn from_str(s: &str) -> Result<SortBy, String> {
        SortBy::parse(s)
    }
}

impl GroupBy {
    /// Reads a grouping dimension from its command-line spelling; rejects
    /// anything but `language`, `file` and `arg`.
    pub fn parse(s: &str) -> (r: Result<GroupBy, String>)
        ensures
            r is Ok <==> (s@ == "language"@ || s@ == "file"@ || s@ == "arg"@),
            s@ == "language"@ ==> r == Ok::<GroupBy, String>(GroupBy::Language),
            s@ == "file"@ ==> r == Ok::<GroupBy, String>(GroupBy::File),
            s@ == "arg"@ ==> r == Ok::<GroupBy, String>(GroupBy::Arg),
    {
        proof {
            reveal_strlit("language");
            reveal_strlit("file");
            reveal_strlit("arg");
            assert("language"@.len() == 8);
            assert("file"@.len() == 4);
            assert("arg"@.len() == 3);
        }
        if str_eq(s, "language") {
            Ok(GroupBy::Language)
        } else if str_eq(s, "file") {
            Ok(GroupBy::File)
        } else if str_eq(s, "arg") {
            Ok(GroupBy::Arg)
        } else {
            let mut msg = String::from_str("\"");
            msg.append(s);
            msg.append("\" is not a supported argument to --group-by. Use one of language|file");
            Err(msg)
        }
    }
}

impl std::str::FromStr for GroupBy {
    type Err = String;

    fn from_str(s: &str) -> Result<GroupBy, String> {
        GroupBy::parse(s)
    }
}

} // verus!
