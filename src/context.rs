//! The sandboxed layout: a data area, a backups area and a log file under one base,
//! with files addressed by bare, whitelisted names.
use vstd::prelude::*;
use crate::error::ErrorKind;
use crate::paths::{join, join_spec};

verus! {

/// A character allowed in a file name: an ASCII letter or digit, `.`, `-` or `_`.
pub open spec fn name_char(c: char) -> bool {
    ('a' <= c && c <= 'z') || ('A' <= c && c <= 'Z') || ('0' <= c && c <= '9') || c == '.' || c == '-'
        || c == '_'
}

/// A file name that the sandbox accepts: non-empty, whitelisted characters only
/// (so no separator), and neither `.` nor `..`.
pub open spec fn valid_name(s: Seq<char>) -> bool {
    &&& s.len() > 0
    &&& forall|i: int| 0 <= i < s.len() ==> name_char(#[trigger] s[i])
    &&& s != seq!['.']
    &&& s != seq!['.', '.']
}

/// Where the backup of a file named `name` is kept: `<name>.bak`.
pub open spec fn bak_name(name: Seq<char>) -> Seq<char> {
    name + seq!['.', 'b', 'a', 'k']
}

fn is_name_char(c: char) -> (r: bool)
    ensures
        r == name_char(c),
{
    ('a' <= c && c <= 'z') || ('A' <= c && c <= 'Z') || ('0' <= c && c <= '9') || c == '.' || c == '-'
        || c == '_'
}

/// A base directory and its three fixed parts.
#[derive(Clone, Debug)]
pub struct Context {
    pub base_dir: String,
    pub data_dir: String,
    pub backups_dir: String,
    pub log_path: String,
}

impl Context {
    /// Lays out a context under `base_dir`: `<data_dir_name>/` for the files,
    /// `backups/` for their backups, `logs/logfile.txt` for the log.
    pub fn with_layout(base_dir: &str, data_dir_name: &str) -> (r: Context)
        ensures
            r.base_dir@ == base_dir@,
            r.data_dir@ == join_spec(base_dir@, data_dir_name@),
            r.backups_dir@ == join_spec(base_dir@, "backups"@),
            r.log_path@ == join_spec(join_spec(base_dir@, "logs"@), "logfile.txt"@),
    {
        let data_dir = join(base_dir, data_dir_name);
        let backups_dir = join(base_dir, "backups");
        let logs_dir = join(base_dir, "logs");
        let log_path = join(logs_dir.as_str(), "logfile.txt");
        Context { base_dir: String::from_str(base_dir), data_dir, backups_dir, log_path }
    }

    /// The directory that holds the logs.
    pub fn logs_dir(&self) -> (r: String)
        ensures
            r@ == join_spec(self.base_dir@, "logs"@),
    {
        join(self.base_dir.as_str(), "logs")
    }

    /// Accepts exactly the names of `valid_name`; any other is `InvalidInput`.
    /// Only the name is looked at.
    pub fn validate_filename(&self, name: &str) -> (r: Result<(), ErrorKind>)
        ensures
            r is Ok <==> valid_name(name@),
            r is Err ==> r == Err::<(), ErrorKind>(ErrorKind::InvalidInput),
    {
        let n = name.unicode_len();
        if n == 0 {
            return Err(ErrorKind::InvalidInput);
        }
        let mut i: usize = 0;
        while i < n
            invariant
                n == name@.len(),
                i <= n,
                forall|j: int| 0 <= j < i ==> name_char(#[trigger] name@[j]),
            decreases n - i,
        {
            if !is_name_char(name.get_char(i)) {
                return Err(ErrorKind::InvalidInput);
            }
            i = i + 1;
        }
        if n == 1 && name.get_char(0) == '.' {
            proof {
                assert(name@ =~= seq!['.']);
            }
            return Err(ErrorKind::InvalidInput);
        }
        if n == 2 && name.get_char(0) == '.' && name.get_char(1) == '.' {
            proof {
                assert(name@ =~= seq!['.', '.']);
            }
            return Err(ErrorKind::InvalidInput);
        }
        proof {
            if name@ == seq!['.'] {
                assert(name@[0] == '.');
            }
            if name@ == seq!['.', '.'] {
                assert(name@[0] == '.' && name@[1] == '.');
            }
        }
        Ok(())
    }

    /// The data file called `name`.
    pub fn data_path(&self, name: &str) -> (r: String)
        ensures
            r@ == join_spec(self.data_dir@, name@),
    {
        join(self.data_dir.as_str(), name)
    }

    /// The backup of the data file called `name`.
    pub fn backup_path(&self, name: &str) -> (r: String)
        ensures
            r@ == join_spec(self.backups_dir@, bak_name(name@)),
    {
        let mut b = String::from_str(name);
        b.append(".bak");
        proof {
            reveal_strlit(".bak");
        }
        join(self.backups_dir.as_str(), b.as_str())
    }

    /// For a backup of `name`: the file to read and the file to write, once the name is valid.
    pub fn backup_plan(&self, name: &str) -> (r: Result<(String, String), ErrorKind>)
        ensures
            r is Ok <==> valid_name(name@),
            r is Err ==> r == Err::<(String, String), ErrorKind>(ErrorKind::InvalidInput),
            r matches Ok((src, dst)) ==> src@ == join_spec(self.data_dir@, name@) && dst@ == join_spec(
                self.backups_dir@,
                bak_name(name@),
            ),
    {
        match self.validate_filename(name) {
            Ok(()) => Ok((self.data_path(name), self.backup_path(name))),
            Err(e) => Err(e),
        }
    }

    /// For a restore of `name`: the backup to read and the data file to write.
    pub fn restore_plan(&self, name: &str) -> (r: Result<(String, String), ErrorKind>)
        ensures
            r is Ok <==> valid_name(name@),
            r is Err ==> r == Err::<(String, String), ErrorKind>(ErrorKind::InvalidInput),
            r matches Ok((src, dst)) ==> src@ == join_spec(self.backups_dir@, bak_name(name@))
                && dst@ == join_spec(self.data_dir@, name@),
    {
        match self.validate_filename(name) {
            Ok(()) => Ok((self.backup_path(name), self.data_path(name))),
            Err(e) => Err(e),
        }
    }

    /// For a deletion of `name`: the data file to remove.
    pub fn delete_plan(&self, name: &str) -> (r: Result<String, ErrorKind>)
        ensures
            r is Ok <==> valid_name(name@),
            r is Err ==> r == Err::<String, ErrorKind>(ErrorKind::InvalidInput),
            r matches Ok(t) ==> t@ == join_spec(self.data_dir@, name@),
    {
        match self.validate_filename(name) {
            Ok(()) => Ok(self.data_path(name)),
            Err(e) => Err(e),
        }
    }
}


/// Names that are empty, hold a separator, or are `.` or `..` are refused by the name
/// alone.
pub proof fn lemma_rejected_names(s: Seq<char>)
    requires
        s.len() == 0 || s.contains('/') || s == seq!['.'] || s == seq!['.', '.'],
    ensures
        !valid_name(s),
{
    if s.contains('/') {
        let i = choose|i: int| 0 <= i < s.len() && s[i] == '/';
        assert(!name_char(s[i]));
    }
}

} // verus!
