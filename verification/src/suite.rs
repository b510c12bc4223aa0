//! Descriptors of a suite of failing cases: each pairs a queries file and a
//! migration with the diagnostic that preparing them must end in.

use vstd::prelude::*;

verus! {

/// White space as the Unicode property `White_Space` defines it.
pub open spec fn is_white_space(c: char) -> bool {
    let n = c as int;
    ||| 0x09 <= n <= 0x0D
    ||| n == 0x20
    ||| n == 0x85
    ||| n == 0xA0
    ||| n == 0x1680
    ||| 0x2000 <= n <= 0x200A
    ||| n == 0x2028
    ||| n == 0x2029
    ||| n == 0x202F
    ||| n == 0x205F
    ||| n == 0x3000
}

/// A text without the white space it begins with.
pub open spec fn trim_start(text: Seq<char>) -> Seq<char>
    decreases text.len(),
{
    if text.len() > 0 && is_white_space(text[0]) {
        trim_start(text.drop_first())
    } else {
        text
    }
}

/// A text without the white space it ends with.
pub open spec fn trim_end(text: Seq<char>) -> Seq<char>
    decreases text.len(),
{
    if text.len() > 0 && is_white_space(text.last()) {
        trim_end(text.drop_last())
    } else {
        text
    }
}

/// A text without the white space at either end.
pub open spec fn trimmed(text: Seq<char>) -> Seq<char> {
    trim_end(trim_start(text))
}

/// Decides `is_white_space`.
pub fn white_space(c: char) -> (r: bool)
    ensures
        r == is_white_space(c),
{
    let n = c as u32;
    (0x09 <= n && n <= 0x0D) || n == 0x20 || n == 0x85 || n == 0xA0 || n == 0x1680 || (0x2000 <= n
        && n <= 0x200A) || n == 0x2028 || n == 0x2029 || n == 0x202F || n == 0x205F || n == 0x3000
}

/// The text without the white space at either end.
pub fn trim(text: &str) -> (r: String)
    ensures
        r@ == trimmed(text@),
{
    let len = text.unicode_len();
    let mut from: usize = 0;
    assert(text@.skip(0) =~= text@);
    while from < len && white_space(text.get_char(from))
        invariant
            from <= len,
            len == text@.len(),
            trim_start(text@) == trim_start(text@.skip(from as int)),
        decreases len - from,
    {
        assert(text@.skip(from as int).drop_first() =~= text@.skip(from + 1));
        from += 1;
    }
    let ghost rest = text@.skip(from as int);
    assert(trim_start(text@) == rest);
    let mut to: usize = len;
    assert(rest.take(len - from) =~= rest);
    while to > from && white_space(text.get_char(to - 1))
        invariant
            from <= to <= len,
            len == text@.len(),
            rest == text@.skip(from as int),
            trim_end(rest) == trim_end(rest.take(to - from)),
        decreases to,
    {
        assert(rest.take(to - from).drop_last() =~= rest.take(to - from - 1));
        to -= 1;
    }
    assert(trim_end(rest) == rest.take(to - from));
    assert(rest.take(to - from) =~= text@.subrange(from as int, to as int));
    text.substring_char(from, to).to_owned()
}

/// One case: what to put into the queries and migrations directories, and
/// the diagnostic expected.
#[derive(Debug, Clone, PartialEq, Eq)]
pub struct Test {
    pub name: String,
    pub query: Option<String>,
    pub migration: Option<String>,
    pub query_name: Option<String>,
    pub migration_name: Option<String>,
    pub error: String,
}

/// The cases of one descriptor file.
#[derive(Debug, Clone, PartialEq, Eq)]
pub struct TestSuite {
    pub test: Vec<Test>,
}

/// The file that a migration goes to when the case names none.
pub open spec fn default_migration_file() -> Seq<char> {
    "1653210840_first.sql"@
}

/// The file that a query goes to when the case names none.
pub open spec fn default_query_file() -> Seq<char> {
    "module_1.sql"@
}

impl Test {
    /// The file name of the migration: the one the case names, else the
    /// default.
    pub fn migration_file(&self) -> (r: String)
        ensures
            r@ == match self.migration_name {
                Some(name) => name@,
                None => default_migration_file(),
            },
    {
        match &self.migration_name {
            Some(name) => name.clone(),
            None => "1653210840_first.sql".to_owned(),
        }
    }

    /// The file name of the queries: the one the case names, else the
    /// default.
    pub fn query_file(&self) -> (r: String)
        ensures
            r@ == match self.query_name {
                Some(name) => name@,
                None => default_query_file(),
            },
    {
        match &self.query_name {
            Some(name) => name.clone(),
            None => "module_1.sql".to_owned(),
        }
    }

    /// Whether `got` is the diagnostic expected, white space at either end
    /// aside. An empty `got` stands for no failure.
    pub fn accepts(&self, got: &str) -> (r: bool)
        ensures
            r == (trimmed(got@) == trimmed(self.error@)),
    {
        trim(got) == trim(self.error.as_str())
    }

    /// Makes `got`, without the white space at either end, the diagnostic
    /// expected.
    pub fn record(&mut self, got: &str)
        ensures
            final(self).error@ == trimmed(got@),
            final(self).name == old(self).name,
            final(self).query == old(self).query,
            final(self).migration == old(self).migration,
            final(self).query_name == old(self).query_name,
            final(self).migration_name == old(self).migration_name,
    {
        self.error = trim(got);
    }
}

impl TestSuite {
    /// Whether every case accepts the diagnostic that `got` holds for it;
    /// `got` has one entry for each case, in order.
    pub fn successful(&self, got: &Vec<String>) -> (r: bool)
        requires
            got.len() == self.test.len(),
        ensures
            r == forall|i: int|
                0 <= i < self.test.len() ==> trimmed(got[i]@) == trimmed(
                    (#[trigger] self.test[i]).error@,
                ),
    {
        let mut i: usize = 0;
        while i < self.test.len()
            invariant
                i <= self.test.len(),
                got.len() == self.test.len(),
                forall|k: int|
                    0 <= k < i ==> trimmed(got[k]@) == trimmed((#[trigger] self.test[k]).error@),
            decreases self.test.len() - i,
        {
            if !self.test[i].accepts(got[i].as_str()) {
                return false;
            }
            i += 1;
        }
        true
    }
}

} // verus!
