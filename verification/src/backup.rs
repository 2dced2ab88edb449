//! Daily copies of the database, and which of them are kept.
use crate::find::{ends_with, starts_with};
use crate::text::{chars_of, copy_text};
use vstd::prelude::*;

verus! {

/// Seconds between two looks at whether a copy is due.
pub const CHECK_SECONDS: u64 = 21600;

/// A point in time, since 1970.
#[derive(Debug, Clone, Copy)]
pub struct Moment {
    pub secs: i64,
    pub nanos: u32,
}

impl Moment {
    /// The moment in nanoseconds since 1970.
    pub open spec fn total(self) -> int {
        self.secs * 1_000_000_000 + self.nanos
    }

    /// How many nanoseconds a moment lies after another.
    pub fn since(&self, earlier: Moment) -> (r: i128)
        ensures
            r == self.total() - earlier.total(),
            -40_000_000_000_000_000_000_000_000_000 < r < 40_000_000_000_000_000_000_000_000_000,
    {
        let a: i128 = self.secs as i128 * 1_000_000_000 + self.nanos as i128;
        let b: i128 = earlier.secs as i128 * 1_000_000_000 + earlier.nanos as i128;
        a - b
    }
}

/// A number of days in nanoseconds.
pub open spec fn days(n: u32) -> int {
    n * 86_400_000_000_000
}

/// A number of days in nanoseconds.
pub fn nanos_of_days(n: u32) -> (r: i128)
    ensures
        r == days(n),
{
    n as i128 * 86_400_000_000_000
}

/// The name of the copy of a day.
pub open spec fn snapshot(stamp: Seq<char>) -> Seq<char> {
    "snippets-"@ + stamp + ".db"@
}

/// The name of the copy of a day.
pub fn snapshot_name(stamp: &str) -> (r: String)
    ensures
        r@ == snapshot(stamp@),
{
    let mut out: String = "snippets-".to_owned();
    out.push_str(stamp);
    out.push_str(".db");
    out
}

/// Today's date where the machine is, as `YYYYMMDD`, from `chrono::Local::now`.
/// Nothing is claimed of it: it rests on the clock and the time zone.
#[verifier::external_body]
fn today_stamp() -> String {
    chrono::Local::now().format("%Y%m%d").to_string()
}

/// The name of today's copy: the same name however often it is asked for on one day.
pub fn todays_snapshot() -> (r: String)
    ensures
        exists|stamp: Seq<char>| r@ == #[trigger] snapshot(stamp),
        is_snapshot(r@),
{
    let stamp = today_stamp();
    let r = snapshot_name(stamp.as_str());
    proof {
        law_copies_are_recognised(stamp@);
    }
    r
}

/// Whether a file's name is that of a copy.
pub open spec fn is_snapshot(name: Seq<char>) -> bool {
    "snippets-"@.is_prefix_of(name) && ".db"@.is_suffix_of(name)
}

/// A file beside the copies. Its name is absent where it is no text, its age where
/// the machine does not tell.
#[derive(Debug)]
pub struct BackupFile {
    pub name: Option<String>,
    pub modified: Option<Moment>,
}

/// Whether a file is a copy that was last written more than so many days before now.
pub open spec fn outdated(f: BackupFile, now: Moment, retention_days: u32) -> bool {
    match (f.name, f.modified) {
        (Some(n), Some(m)) => is_snapshot(n@) && m.total() < now.total() - days(retention_days),
        _ => false,
    }
}

/// Whether a file is a copy that was last written more than so many days before now.
pub fn is_outdated(f: &BackupFile, now: Moment, retention_days: u32) -> (r: bool)
    ensures
        r == outdated(*f, now, retention_days),
{
    if let Some(n) = &f.name {
        if let Some(m) = f.modified {
            return starts_with(n.as_str(), "snippets-") && ends_with(n.as_str(), ".db")
                && now.since(m) > nanos_of_days(retention_days);
        }
    }
    false
}

/// The places of the files that are dropped, in order.
pub open spec fn dropped(l: Seq<BackupFile>, now: Moment, retention_days: u32) -> Seq<int>
    decreases l.len(),
{
    if l.len() == 0 {
        Seq::empty()
    } else {
        let before = dropped(l.drop_last(), now, retention_days);
        if outdated(l.last(), now, retention_days) {
            before.push(l.len() - 1)
        } else {
            before
        }
    }
}

/// The places of the files that are dropped, in order.
pub fn prune_old(l: &Vec<BackupFile>, now: Moment, retention_days: u32) -> (r: Vec<usize>)
    ensures
        r@.map_values(|i: usize| i as int) == dropped(l@, now, retention_days),
{
    let mut out: Vec<usize> = Vec::new();
    let n: usize = l.len();
    let ghost f = |i: usize| i as int;
    assert(out@.map_values(f) =~= Seq::<int>::empty());
    assert(l@.take(0) =~= Seq::<BackupFile>::empty());
    for i in 0..n
        invariant
            n == l@.len(),
            f == (|i: usize| i as int),
            out@.map_values(f) == dropped(l@.take(i as int), now, retention_days),
    {
        proof {
            let t = l@.take(i + 1);
            assert(t.drop_last() =~= l@.take(i as int));
            assert(t.last() == l@[i as int]);
        }
        if is_outdated(&l[i], now, retention_days) {
            let ghost before = out@;
            out.push(i);
            assert(out@.map_values(f) =~= before.map_values(f).push(i as int));
        }
    }
    assert(l@.take(n as int) =~= l@);
    out
}

/// The name of any day's copy is one that pruning looks at.
pub proof fn law_copies_are_recognised(stamp: Seq<char>)
    ensures
        is_snapshot(snapshot(stamp)),
{
    let s = snapshot(stamp);
    let k = s.len() - ".db"@.len();
    assert("snippets-"@.is_prefix_of(s));
    assert(s.subrange(k, s.len() as int) =~= ".db"@);
}

/// Pruning drops a file exactly where it is outdated: other files stay, and so does
/// every copy within the days that copies are kept.
pub proof fn law_prune_drops_the_outdated(
    l: Seq<BackupFile>,
    now: Moment,
    retention_days: u32,
    i: int,
)
    requires
        0 <= i < l.len(),
    ensures
        dropped(l, now, retention_days).contains(i) <==> outdated(l[i], now, retention_days),
        forall|k: int|
            0 <= k < dropped(l, now, retention_days).len() ==> 0 <= #[trigger] dropped(
                l,
                now,
                retention_days,
            )[k] < l.len(),
    decreases l.len(),
{
    let t = l.drop_last();
    let d = dropped(t, now, retention_days);
    let all = dropped(l, now, retention_days);
    if t.len() > 0 {
        law_prune_drops_the_outdated(
            t,
            now,
            retention_days,
            if i < t.len() {
                i
            } else {
                0
            },
        );
    }
    if outdated(l.last(), now, retention_days) {
        assert(all[all.len() - 1] == l.len() - 1);
        if i < t.len() {
            assert(t[i] == l[i]);
            if d.contains(i) {
                let k = choose|k: int| 0 <= k < d.len() && d[k] == i;
                assert(all[k] == i);
            }
            if all.contains(i) {
                let k = choose|k: int| 0 <= k < all.len() && all[k] == i;
                assert(d[k] == i);
            }
        }
    } else if i < t.len() {
        assert(t[i] == l[i]);
    }
}

/// A path below a folder, by the machine's separator.
pub open spec fn path_below(dir: Seq<char>, sep: char, name: Seq<char>) -> Seq<char> {
    if dir.len() == 0 || dir.last() == sep || dir.last() == '/' {
        dir + name
    } else {
        dir.push(sep) + name
    }
}

/// A path below a folder, by the machine's separator.
pub fn below(dir: &str, sep: char, name: &str) -> (r: String)
    ensures
        r@ == path_below(dir@, sep, name@),
{
    let v: Vec<char> = chars_of(dir);
    let n: usize = v.len();
    let mut out: String = copy_text(dir);
    if n > 0 && v[n - 1] != sep && v[n - 1] != '/' {
        out.push(sep);
    }
    out.push_str(name);
    out
}

/// Where the copies are kept, below the folder of the app's data.
pub fn backups_dir(data_dir: &str, sep: char) -> (r: String)
    ensures
        r@ == path_below(data_dir@, sep, "backups"@),
{
    below(data_dir, sep, "backups")
}

/// That a copy was made, of so many bytes.
pub open spec fn copied(path: Seq<char>, bytes: Seq<char>) -> Seq<char> {
    "backup: snapshot "@
        + path
        + " ("@
        + bytes
        + " bytes)"@
}

/// That a copy was made, of so many bytes.
pub fn copied_text(path: &str, bytes: &str) -> (r: String)
    ensures
        r@ == copied(path@, bytes@),
{
    let mut out: String = "backup: snapshot ".to_owned();
    out.push_str(path);
    out.push_str(" (");
    out.push_str(bytes);
    out.push_str(" bytes)");
    out
}

/// That a copy could not be made.
pub open spec fn not_copied(from: Seq<char>, to: Seq<char>, err: Seq<char>) -> Seq<char> {
    "backup: failed to copy "@
        + from
        + " → "@
        + to
        + ": "@
        + err
}

/// That a copy could not be made.
pub fn not_copied_text(from: &str, to: &str, err: &str) -> (r: String)
    ensures
        r@ == not_copied(from@, to@, err@),
{
    let mut out: String = "backup: failed to copy ".to_owned();
    out.push_str(from);
    out.push_str(" → ");
    out.push_str(to);
    out.push_str(": ");
    out.push_str(err);
    out
}

/// That a copy could not be dropped.
pub open spec fn not_pruned(path: Seq<char>, err: Seq<char>) -> Seq<char> {
    "backup: prune failed for "@
        + path
        + ": "@
        + err
}

/// That a copy could not be dropped.
pub fn not_pruned_text(path: &str, err: &str) -> (r: String)
    ensures
        r@ == not_pruned(path@, err@),
{
    let mut out: String = "backup: prune failed for ".to_owned();
    out.push_str(path);
    out.push_str(": ");
    out.push_str(err);
    out
}

/// That a copy was dropped.
pub open spec fn pruned(path: Seq<char>) -> Seq<char> {
    "backup: pruned "@
        + path
}

/// That a copy was dropped.
pub fn pruned_text(path: &str) -> (r: String)
    ensures
        r@ == pruned(path@),
{
    let mut out: String = "backup: pruned ".to_owned();
    out.push_str(path);
    out
}

/// That the copy at the start failed.
pub open spec fn first_failed(err: Seq<char>) -> Seq<char> {
    "backup: initial snapshot failed: "@
        + err
}

/// That the copy at the start failed.
pub fn first_failed_text(err: &str) -> (r: String)
    ensures
        r@ == first_failed(err@),
{
    let mut out: String = "backup: initial snapshot failed: ".to_owned();
    out.push_str(err);
    out
}

/// That a later copy failed.
pub open spec fn later_failed(err: Seq<char>) -> Seq<char> {
    "backup: scheduled snapshot failed: "@
        + err
}

/// That a later copy failed.
pub fn later_failed_text(err: &str) -> (r: String)
    ensures
        r@ == later_failed(err@),
{
    let mut out: String = "backup: scheduled snapshot failed: ".to_owned();
    out.push_str(err);
    out
}

/// A file is dropped exactly where it is named as the copy of a day, and was last written
/// more than so many days of twenty-four hours before now.
pub proof fn law_copies_are_kept_for_their_days(
    l: Seq<BackupFile>,
    now: Moment,
    retention_days: u32,
    i: int,
)
    requires
        0 <= i < l.len(),
    ensures
        dropped(l, now, retention_days).contains(i) <==> {
            &&& l[i].name matches Some(n) && exists|stamp: Seq<char>|
                n@ == #[trigger] ("snippets-"@ + stamp + ".db"@)
            &&& l[i].modified matches Some(m) && (now.secs - m.secs) * 1_000_000_000 + (now.nanos
                - m.nanos) > retention_days * 24 * 3600 * 1_000_000_000
        },
{
    law_prune_drops_the_outdated(l, now, retention_days, i);
    if let Some(n) = l[i].name {
        let s = n@;
        let a = "snippets-"@;
        let z = ".db"@;
        if is_snapshot(s) {
            reveal_strlit("snippets-");
            reveal_strlit(".db");
            assert(s.take(9) =~= a);
            let k = s.len() - 3;
            if k < 9 {
                assert(s[8] == a[8]);
                assert(s.subrange(k, s.len() as int)[8 - k] == z[8 - k]);
                assert(false);
            }
            let stamp = s.subrange(9, k);
            assert(s =~= a + stamp + z) by {
                assert forall|j: int| k <= j < s.len() implies s[j] == z[j - k] by {
                    assert(s.subrange(k, s.len() as int)[j - k] == z[j - k]);
                }
            }
        }
        if exists|stamp: Seq<char>| s == #[trigger] ("snippets-"@ + stamp + ".db"@) {
            let stamp = choose|stamp: Seq<char>| s == #[trigger] ("snippets-"@ + stamp + ".db"@);
            law_copies_are_recognised(stamp);
        }
    }
}

/// A file below a folder has the path of the folder, one separator and its name.
pub proof fn law_paths_have_one_separator(dir: Seq<char>, sep: char, name: Seq<char>)
    ensures
        dir.len() > 0 && dir.last() != sep && dir.last() != '/' ==> path_below(dir, sep, name)
            == dir + seq![sep] + name,
        path_below(dir.push(sep), sep, name) == dir + seq![sep] + name,
        path_below(dir.push('/'), sep, name) == dir + seq!['/'] + name,
        path_below(Seq::empty(), sep, name) == name,
{
    assert(dir.push(sep) =~= dir + seq![sep]);
    assert(dir.push('/') =~= dir + seq!['/']);
    assert(Seq::<char>::empty() + name =~= name);
}

} // verus!
