//! Backup identifiers and the catalog of stored backups: which entries belong to an
//! original file, in what order, which is the latest, and lookup and removal by identifier.
use vstd::prelude::*;
use crate::digest::{identity_of, identity_spec};
use crate::error::ErrorKind;
use crate::paths::absolute;
use crate::lex::{lex_le, lex_lt, str_lt, lemma_lex_trichotomy, lemma_lex_transitive};

verus! {

broadcast use vstd::seq_lib::group_to_multiset_ensures;

/// The separator between the fields of an identifier.
pub open spec fn sep() -> Seq<char> {
    seq!['_', '_']
}

/// The identifier `<hash>__<timestamp>__<basename>`.
pub open spec fn id_spec(hash: Seq<char>, timestamp: Seq<char>, basename: Seq<char>) -> Seq<char> {
    hash + sep() + timestamp + sep() + basename
}

/// `s` begins with `p`.
pub open spec fn starts_with(s: Seq<char>, p: Seq<char>) -> bool {
    p.len() <= s.len() && s.subrange(0, p.len() as int) == p
}

/// The entries of `names` that begin with `hash`, in their order.
pub open spec fn matching(names: Seq<Seq<char>>, hash: Seq<char>) -> Seq<Seq<char>>
    decreases names.len(),
{
    if names.len() == 0 {
        Seq::empty()
    } else {
        let rest = matching(names.drop_last(), hash);
        if starts_with(names.last(), hash) {
            rest.push(names.last())
        } else {
            rest
        }
    }
}

/// `names` without any entry equal to `id`, the others in their order.
pub open spec fn remove_all(names: Seq<Seq<char>>, id: Seq<char>) -> Seq<Seq<char>>
    decreases names.len(),
{
    if names.len() == 0 {
        Seq::empty()
    } else {
        let rest = remove_all(names.drop_last(), id);
        if names.last() != id {
            rest.push(names.last())
        } else {
            rest
        }
    }
}

/// Each entry sorts no later than every entry after it.
pub open spec fn sorted(s: Seq<Seq<char>>) -> bool {
    forall|i: int, j: int| 0 <= i < j < s.len() ==> lex_le(#[trigger] s[i], #[trigger] s[j])
}

/// `s` is the entries of `names` that begin with `hash`, ascending.
pub open spec fn is_listing(s: Seq<Seq<char>>, names: Seq<Seq<char>>, hash: Seq<char>) -> bool {
    sorted(s) && s.to_multiset() == matching(names, hash).to_multiset()
}

/// `x` is in `s` and no entry of `s` sorts after it.
pub open spec fn is_greatest(s: Seq<Seq<char>>, x: Seq<char>) -> bool {
    s.contains(x) && forall|y: Seq<char>| s.contains(y) ==> lex_le(y, x)
}

/// The character sequences of a list of strings.
pub open spec fn strs(v: Seq<String>) -> Seq<Seq<char>> {
    v.map_values(|s: String| s@)
}

/// Tests whether `s` begins with `p`.
pub fn has_prefix(s: &str, p: &str) -> (r: bool)
    ensures
        r == starts_with(s@, p@),
{
    let ls = s.unicode_len();
    let lp = p.unicode_len();
    if lp > ls {
        return false;
    }
    let mut i: usize = 0;
    while i < lp
        invariant
            ls == s@.len(),
            lp == p@.len(),
            lp <= ls,
            i <= lp,
            s@.subrange(0, i as int) == p@.subrange(0, i as int),
        decreases lp - i,
    {
        if s.get_char(i) != p.get_char(i) {
            proof {
                assert(s@.subrange(0, lp as int)[i as int] != p@[i as int]);
            }
            return false;
        }
        proof {
            assert(s@.subrange(0, i + 1) =~= s@.subrange(0, i as int).push(s@[i as int]));
            assert(p@.subrange(0, i + 1) =~= p@.subrange(0, i as int).push(p@[i as int]));
        }
        i = i + 1;
    }
    proof {
        assert(p@.subrange(0, lp as int) =~= p@);
    }
    true
}

/// A backup identifier as its three fields.
#[derive(Clone, Debug)]
pub struct BackupId {
    /// The identity digest of the original file's absolute path.
    pub hash: String,
    /// When the backup was made, in RFC 3339 form.
    pub timestamp: String,
    /// The original file's name, for people to read.
    pub basename: String,
}

/// Relies on time's `OffsetDateTime::now_utc` and its RFC 3339 formatting: the current
/// time as text, or nothing where formatting fails. It depends on the clock, so nothing
/// is stated of it.
#[verifier::external_body]
fn now_rfc3339() -> (r: Option<String>) {
    time::OffsetDateTime::now_utc().format(&time::format_description::well_known::Rfc3339).ok()
}

impl BackupId {
    /// The identifier for a backup of the file at `abs_path`, named `file_name`, made at
    /// `timestamp`.
    pub fn at(abs_path: &str, timestamp: &str, file_name: Option<&str>) -> (r: BackupId)
        ensures
            r.hash@ == identity_spec(abs_path@),
            r.timestamp@ == timestamp@,
            r.basename@ == basename_spec(file_name),
    {
        BackupId {
            hash: identity_of(abs_path),
            timestamp: String::from_str(timestamp),
            basename: basename_or_default(file_name),
        }
    }

    /// The identifier for a backup of the file at `abs_path`, made now; where the clock
    /// cannot be formatted the timestamp is `now`.
    pub fn now(abs_path: &str, file_name: Option<&str>) -> (r: BackupId)
        ensures
            r.hash@ == identity_spec(abs_path@),
            r.basename@ == basename_spec(file_name),
    {
        let ts = match now_rfc3339() {
            Some(t) => t,
            None => String::from_str("now"),
        };
        BackupId::at(abs_path, ts.as_str(), file_name)
    }

    /// The identifier as one string: `<hash>__<timestamp>__<basename>`.
    pub fn to_identifier(&self) -> (r: String)
        ensures
            r@ == id_spec(self.hash@, self.timestamp@, self.basename@),
    {
        let mut r = self.hash.clone();
        r.append("__");
        r.append(self.timestamp.as_str());
        r.append("__");
        r.append(self.basename.as_str());
        proof {
            reveal_strlit("__");
        }
        r
    }
}

/// The identity digest of the file at `original`, taken in its absolute form.
pub fn identity_for(original: &str) -> (r: Result<String, ErrorKind>)
    ensures
        r is Err ==> r == Err::<String, ErrorKind>(ErrorKind::PathResolution),
        r matches Ok(h) ==> exists|a: Seq<char>| h@ == identity_spec(a),
{
    let abs = absolute(original)?;
    Ok(identity_of(abs.as_str()))
}

/// The identifier for a backup, made now, of the file at `original` named `file_name`.
pub fn make_backup_id(original: &str, file_name: Option<&str>) -> (r: Result<BackupId, ErrorKind>)
    ensures
        r is Err ==> r == Err::<BackupId, ErrorKind>(ErrorKind::PathResolution),
        r matches Ok(b) ==> (exists|a: Seq<char>| b.hash@ == identity_spec(a)) && b.basename@
            == basename_spec(file_name),
{
    let abs = absolute(original)?;
    Ok(BackupId::now(abs.as_str(), file_name))
}

/// The name carried in an identifier: the file's own name, or `file` where it has none.
pub open spec fn basename_spec(file_name: Option<&str>) -> Seq<char> {
    match file_name {
        Some(n) => n@,
        None => seq!['f', 'i', 'l', 'e'],
    }
}

/// The name carried in an identifier for a file named `file_name`.
pub fn basename_or_default(file_name: Option<&str>) -> (r: String)
    ensures
        r@ == basename_spec(file_name),
{
    match file_name {
        Some(n) => String::from_str(n),
        None => {
            proof {
                reveal_strlit("file");
            }
            String::from_str("file")
        },
    }
}

/// The names of the files in a backup directory.
pub struct Catalog {
    names: Vec<String>,
}

impl View for Catalog {
    type V = Seq<Seq<char>>;

    closed spec fn view(&self) -> Seq<Seq<char>> {
        strs(self.names@)
    }
}

impl Catalog {
    /// A catalog of the given file names.
    pub fn new(names: Vec<String>) -> (r: Catalog)
        ensures
            r@ == strs(names@),
    {
        Catalog { names }
    }

    /// The file names, in the order given.
    pub fn names(&self) -> (r: &Vec<String>)
        ensures
            strs(r@) == self@,
    {
        &self.names
    }

    /// Adds a stored entry.
    pub fn insert(&mut self, id: String)
        ensures
            final(self)@ == old(self)@.push(id@),
    {
        self.names.push(id);
        proof {
            assert(strs(self.names@) =~= strs(old(self).names@).push(id@));
        }
    }

    /// Whether an entry is stored under exactly `id`.
    pub fn contains(&self, id: &str) -> (r: bool)
        ensures
            r == self@.contains(id@),
    {
        let mut i: usize = 0;
        while i < self.names.len()
            invariant
                i <= self.names@.len(),
                forall|j: int| 0 <= j < i ==> self@[j] != id@,
            decreases self.names@.len() - i,
        {
            if has_prefix(self.names[i].as_str(), id) && self.names[i].unicode_len() == id.unicode_len() {
                proof {
                    assert(self@[i as int] =~= id@);
                }
                return true;
            }
            proof {
                if self@[i as int] == id@ {
                    assert(id@.subrange(0, id@.len() as int) =~= id@);
                }
            }
            i = i + 1;
        }
        proof {
            if self@.contains(id@) {
                let k = choose|k: int| 0 <= k < self@.len() && self@[k] == id@;
                assert(self@[k] != id@);
            }
        }
        false
    }

    /// The entry stored under `id`, where there is one.
    pub fn resolve_by_id(&self, id: &str) -> (r: Option<String>)
        ensures
            r is Some <==> self@.contains(id@),
            r matches Some(x) ==> x@ == id@,
    {
        if self.contains(id) {
            Some(String::from_str(id))
        } else {
            None
        }
    }

    /// The entries whose name begins with `hash`, in ascending identifier order: for
    /// entries of one original file, oldest first. None is an empty list, not an error.
    pub fn list_for(&self, hash: &str) -> (r: Vec<String>)
        ensures
            is_listing(strs(r@), self@, hash@),
    {
        let mut r: Vec<String> = Vec::new();
        let n = self.names.len();
        let mut i: usize = 0;
        proof {
            assert(self@.subrange(0, 0) =~= Seq::<Seq<char>>::empty());
            assert(strs(r@) =~= Seq::<Seq<char>>::empty());
        }
        while i < n
            invariant
                n == self.names@.len(),
                i <= n,
                is_listing(strs(r@), self@.subrange(0, i as int), hash@),
            decreases n - i,
        {
            let s = &self.names[i];
            let ghost before = strs(r@);
            proof {
                assert(self@.subrange(0, i + 1).drop_last() =~= self@.subrange(0, i as int));
                assert(self@.subrange(0, i + 1).last() == s@);
            }
            if has_prefix(s.as_str(), hash) {
                let mut k: usize = 0;
                while k < r.len() && !str_lt(s.as_str(), r[k].as_str())
                    invariant
                        k <= r@.len(),
                        strs(r@) == before,
                        forall|j: int| 0 <= j < k ==> lex_le(#[trigger] before[j], s@),
                    decreases r@.len() - k,
                {
                    proof {
                        lemma_lex_trichotomy(s@, before[k as int]);
                    }
                    k = k + 1;
                }
                r.insert(k, s.clone());
                proof {
                    let after = strs(r@);
                    assert(after =~= before.insert(k as int, s@));
                    assert forall|a: int, b: int| 0 <= a < b < after.len() implies lex_le(
                        #[trigger] after[a],
                        #[trigger] after[b],
                    ) by {
                        if b < k {
                        } else if a < k && b == k {
                        } else if a < k {
                            // after[a] <= s < before[k] <= before[b - 1]
                            lemma_lex_trichotomy(s@, before[k as int]);
                            if after[a] != s@ {
                                lemma_lex_transitive(after[a], s@, before[k as int]);
                            }
                            if before[k as int] != before[b - 1] {
                                lemma_lex_transitive(after[a], before[k as int], before[b - 1]);
                            }
                        } else if a == k {
                            lemma_lex_trichotomy(s@, before[k as int]);
                            if before[k as int] != before[b - 1] {
                                lemma_lex_transitive(s@, before[k as int], before[b - 1]);
                            }
                        } else {
                        }
                    }
                    assert(after.to_multiset() == before.to_multiset().insert(s@));
                }
            }
            i = i + 1;
        }
        proof {
            assert(self@.subrange(0, n as int) =~= self@);
        }
        r
    }

    /// The latest entry whose name begins with `hash`: the greatest identifier, nothing
    /// where there is none.
    pub fn latest_for(&self, hash: &str) -> (r: Option<String>)
        ensures
            r is None <==> matching(self@, hash@).len() == 0,
            r matches Some(x) ==> is_greatest(matching(self@, hash@), x@),
    {
        let mut l = self.list_for(hash);
        let ghost ls = strs(l@);
        let ghost m = matching(self@, hash@);
        proof {
            assert(ls.to_multiset().len() == m.to_multiset().len());
            assert(ls.len() == m.len());
        }
        let last = l.pop();
        proof {
            if ls.len() > 0 {
                let x = ls.last();
                assert(ls.to_multiset().count(x) > 0);
                assert(m.contains(x));
                assert forall|y: Seq<char>| m.contains(y) implies lex_le(y, x) by {
                    assert(m.to_multiset().count(y) > 0);
                    let j = choose|j: int| 0 <= j < ls.len() && ls[j] == y;
                    if j < ls.len() - 1 {
                        assert(lex_le(ls[j], ls[ls.len() - 1]));
                    }
                }
            }
        }
        last
    }

    /// Removes the entry stored under `id`; where there is none the catalog is unchanged
    /// and the result is `NotFound`.
    pub fn delete(&mut self, id: &str) -> (r: Result<(), ErrorKind>)
        ensures
            r is Ok <==> old(self)@.contains(id@),
            r is Ok ==> final(self)@ == remove_all(old(self)@, id@),
            r is Err ==> r == Err::<(), ErrorKind>(ErrorKind::NotFound) && final(self)@ == old(self)@,
    {
        if !self.contains(id) {
            return Err(ErrorKind::NotFound);
        }
        let mut kept: Vec<String> = Vec::new();
        let n = self.names.len();
        let mut i: usize = 0;
        proof {
            assert(self@.subrange(0, 0) =~= Seq::<Seq<char>>::empty());
            assert(strs(kept@) =~= Seq::<Seq<char>>::empty());
        }
        while i < n
            invariant
                n == self.names@.len(),
                i <= n,
                strs(kept@) == remove_all(self@.subrange(0, i as int), id@),
            decreases n - i,
        {
            proof {
                assert(self@.subrange(0, i + 1).drop_last() =~= self@.subrange(0, i as int));
                assert(self@.subrange(0, i + 1).last() == self@[i as int]);
            }
            let same = has_prefix(self.names[i].as_str(), id) && self.names[i].unicode_len()
                == id.unicode_len();
            proof {
                if same {
                    assert(self@[i as int] =~= id@);
                } else if self@[i as int] == id@ {
                    assert(id@.subrange(0, id@.len() as int) =~= id@);
                }
            }
            if !same {
                kept.push(self.names[i].clone());
                proof {
                    assert(strs(kept@) =~= remove_all(self@.subrange(0, i as int), id@).push(
                        self@[i as int],
                    ));
                }
            }
            i = i + 1;
        }
        proof {
            assert(self@.subrange(0, n as int) =~= self@);
        }
        self.names = kept;
        Ok(())
    }

    /// The entry to restore for the original file with identity `hash`: the one named
    /// `id` where an identifier is given, else the latest; `NotFound` where it is missing.
    pub fn restore_source(&self, hash: &str, id: Option<&str>) -> (r: Result<String, ErrorKind>)
        ensures
            r is Err ==> r == Err::<String, ErrorKind>(ErrorKind::NotFound),
            id matches Some(i) ==> (r is Ok <==> self@.contains(i@)),
            id matches Some(i) ==> (r matches Ok(x) ==> x@ == i@),
            id is None ==> (r is Ok <==> matching(self@, hash@).len() > 0),
            id is None ==> (r matches Ok(x) ==> is_greatest(matching(self@, hash@), x@)),
    {
        match id {
            Some(i) => match self.resolve_by_id(i) {
                Some(x) => Ok(x),
                None => Err(ErrorKind::NotFound),
            },
            None => match self.latest_for(hash) {
                Some(x) => Ok(x),
                None => Err(ErrorKind::NotFound),
            },
        }
    }
}


/// `remove_all` leaves no entry equal to `id`.
proof fn lemma_remove_all_absent(names: Seq<Seq<char>>, id: Seq<char>)
    ensures
        !remove_all(names, id).contains(id),
    decreases names.len(),
{
    if names.len() > 0 {
        lemma_remove_all_absent(names.drop_last(), id);
        let rest = remove_all(names.drop_last(), id);
        if names.last() != id {
            assert forall|k: int| 0 <= k < rest.push(names.last()).len() implies rest.push(
                names.last(),
            )[k] != id by {
                if k < rest.len() {
                    assert(rest.push(names.last())[k] == rest[k]);
                }
            }
        }
    }
}

/// Once the entry `id` is deleted from a catalog holding `names`, the catalog no longer
/// holds it: looking it up finds nothing, and restoring by it is `NotFound`.
pub proof fn lemma_delete_final(names: Seq<Seq<char>>, id: Seq<char>)
    ensures
        !remove_all(names, id).contains(id),
{
    lemma_remove_all_absent(names, id);
}

/// Identifiers of one original file sort as their timestamps do, where the earlier
/// timestamp differs from the later one at a position inside both.
pub proof fn lemma_id_order(
    hash: Seq<char>,
    t1: Seq<char>,
    t2: Seq<char>,
    b1: Seq<char>,
    b2: Seq<char>,
)
    requires
        crate::lex::differs_before(t1, t2),
    ensures
        lex_lt(id_spec(hash, t1, b1), id_spec(hash, t2, b2)),
{
    let p = hash + sep();
    assert(id_spec(hash, t1, b1) =~= p + (t1 + (sep() + b1)));
    assert(id_spec(hash, t2, b2) =~= p + (t2 + (sep() + b2)));
    crate::lex::lemma_lex_decided(t1, t2, sep() + b1, sep() + b2);
    crate::lex::lemma_lex_common_prefix(p, t1 + (sep() + b1), t2 + (sep() + b2));
}

/// For three backups of one original file made at timestamps t1 < t2 < t3, and no other
/// backup of it, a listing holds exactly those three in that order, and the latest is
/// the third.
pub proof fn lemma_catalog_order(
    names: Seq<Seq<char>>,
    hash: Seq<char>,
    t1: Seq<char>,
    t2: Seq<char>,
    t3: Seq<char>,
    b1: Seq<char>,
    b2: Seq<char>,
    b3: Seq<char>,
    listing: Seq<Seq<char>>,
    latest: Seq<char>,
)
    requires
        crate::lex::differs_before(t1, t2),
        crate::lex::differs_before(t2, t3),
        forall|x: Seq<char>|
            matching(names, hash).contains(x) <==> (x == id_spec(hash, t1, b1) || x == id_spec(
                hash,
                t2,
                b2,
            ) || x == id_spec(hash, t3, b3)),
        is_listing(listing, names, hash),
        is_greatest(matching(names, hash), latest),
    ensures
        forall|x: Seq<char>|
            listing.contains(x) <==> (x == id_spec(hash, t1, b1) || x == id_spec(hash, t2, b2)
                || x == id_spec(hash, t3, b3)),
        exists|i: int, j: int, k: int|
            0 <= i < j < k < listing.len() && listing[i] == id_spec(hash, t1, b1) && listing[j]
                == id_spec(hash, t2, b2) && listing[k] == id_spec(hash, t3, b3),
        latest == id_spec(hash, t3, b3),
{
    let m = matching(names, hash);
    let id1 = id_spec(hash, t1, b1);
    let id2 = id_spec(hash, t2, b2);
    let id3 = id_spec(hash, t3, b3);
    lemma_id_order(hash, t1, t2, b1, b2);
    lemma_id_order(hash, t2, t3, b2, b3);
    lemma_lex_transitive(id1, id2, id3);
    lemma_lex_trichotomy(id1, id2);
    lemma_lex_trichotomy(id2, id3);
    lemma_lex_trichotomy(id1, id3);
    assert forall|x: Seq<char>| listing.contains(x) <==> m.contains(x) by {
        assert(listing.to_multiset().count(x) == m.to_multiset().count(x));
    }
    assert(m.contains(id1) && m.contains(id2) && m.contains(id3));
    let i = choose|i: int| 0 <= i < listing.len() && listing[i] == id1;
    let j = choose|j: int| 0 <= j < listing.len() && listing[j] == id2;
    let k = choose|k: int| 0 <= k < listing.len() && listing[k] == id3;
    if j < i {
        assert(lex_le(listing[j], listing[i]));
    }
    if k < j {
        assert(lex_le(listing[k], listing[j]));
    }
    assert(i < j < k);
    assert(lex_le(id3, latest));
    if latest == id1 {
        lemma_lex_trichotomy(id3, id1);
    }
    if latest == id2 {
        lemma_lex_trichotomy(id3, id2);
    }
}


/// A backup just added under identity `hash` is what a restore picks: by its identifier
/// always, and as the latest where the catalog held no other backup of that file.
pub proof fn lemma_backup_restorable(names: Seq<Seq<char>>, hash: Seq<char>, ts: Seq<char>, base: Seq<char>)
    ensures
        names.push(id_spec(hash, ts, base)).contains(id_spec(hash, ts, base)),
        matching(names, hash).len() == 0 ==> matching(names.push(id_spec(hash, ts, base)), hash)
            == seq![id_spec(hash, ts, base)],
        matching(names, hash).len() == 0 ==> forall|x: Seq<char>|
            is_greatest(matching(names.push(id_spec(hash, ts, base)), hash), x) ==> x == id_spec(
                hash,
                ts,
                base,
            ),
{
    let id = id_spec(hash, ts, base);
    let after = names.push(id);
    assert(after[names.len() as int] == id);
    assert(after.drop_last() =~= names);
    assert(id.subrange(0, hash.len() as int) =~= hash);
    assert(starts_with(id, hash));
    if matching(names, hash).len() == 0 {
        assert(matching(after, hash) =~= seq![id]);
    }
}

} // verus!
