//! `wux info`: the summary of a directory tree (size, counts, largest, newest
//! and oldest file) and how sizes and ages are shown.
//!
//! The tree is walked outside; every folder and file met is handed to a
//! [`DirSummary`], which keeps the figures that the walk reports.
use crate::text::{append_str, decimal, from_chars, push_decimal};
use vstd::prelude::*;

verus! {

broadcast use vstd::string::group_string_axioms;

/// A file met by the walk: its path, size in bytes and modification time in
/// seconds since the Unix epoch (0 when unknown).
pub type FileRecord = (Seq<char>, u64, u64);

/// The total size of the files.
pub open spec fn total_of(files: Seq<FileRecord>) -> int
    decreases files.len(),
{
    if files.len() == 0 {
        0
    } else {
        total_of(files.drop_last()) + files.last().1
    }
}

/// The largest file and its size: a file replaces the current one only when it
/// is strictly larger; before any file, the walk's start with size 0.
pub open spec fn largest_of(start: Seq<char>, files: Seq<FileRecord>) -> (Seq<char>, u64)
    decreases files.len(),
{
    if files.len() == 0 {
        (start, 0)
    } else {
        let prev = largest_of(start, files.drop_last());
        let f = files.last();
        if f.1 > prev.1 {
            (f.0, f.1)
        } else {
            prev
        }
    }
}

/// The most recently modified file and its time: a file replaces the current
/// one only when it is strictly newer; before any file, the start with time 0.
pub open spec fn newest_of(start: Seq<char>, files: Seq<FileRecord>) -> (Seq<char>, u64)
    decreases files.len(),
{
    if files.len() == 0 {
        (start, 0)
    } else {
        let prev = newest_of(start, files.drop_last());
        let f = files.last();
        if f.2 > prev.1 {
            (f.0, f.2)
        } else {
            prev
        }
    }
}

/// The least recently modified file with a known time and its time: a file
/// replaces the current one only when its time is positive and strictly
/// older; before any file, the start with time `u64::MAX`.
pub open spec fn oldest_of(start: Seq<char>, files: Seq<FileRecord>) -> (Seq<char>, u64)
    decreases files.len(),
{
    if files.len() == 0 {
        (start, u64::MAX)
    } else {
        let prev = oldest_of(start, files.drop_last());
        let f = files.last();
        if f.2 > 0 && f.2 < prev.1 {
            (f.0, f.2)
        } else {
            prev
        }
    }
}

/// What a walk has reported so far.
pub struct DirSummary {
    pub total_size: u64,
    pub file_count: usize,
    pub folder_count: usize,
    pub largest_path: String,
    pub largest_size: u64,
    pub newest_path: String,
    pub newest_time: u64,
    pub oldest_path: String,
    pub oldest_time: u64,
    /// The directory the walk starts from.
    pub start: Ghost<Seq<char>>,
    /// The files reported, in order.
    pub files: Ghost<Seq<FileRecord>>,
}

impl DirSummary {
    /// The figures are those of the files reported so far.
    pub open spec fn wf(&self) -> bool {
        &&& self.total_size == total_of(self.files@)
        &&& self.file_count == self.files@.len()
        &&& (self.largest_path@, self.largest_size) == largest_of(self.start@, self.files@)
        &&& (self.newest_path@, self.newest_time) == newest_of(self.start@, self.files@)
        &&& (self.oldest_path@, self.oldest_time) == oldest_of(self.start@, self.files@)
    }

    /// The summary of a walk from `start` before anything is reported.
    pub fn new(start: &str) -> (r: Self)
        ensures
            r.wf(),
            r.start@ == start@,
            r.files@ == Seq::<FileRecord>::empty(),
            r.folder_count == 0,
    {
        DirSummary {
            total_size: 0,
            file_count: 0,
            folder_count: 0,
            largest_path: String::from_str(start),
            largest_size: 0,
            newest_path: String::from_str(start),
            newest_time: 0,
            oldest_path: String::from_str(start),
            oldest_time: u64::MAX,
            start: Ghost(start@),
            files: Ghost(Seq::empty()),
        }
    }

    /// Records a folder met by the walk.
    pub fn add_folder(&mut self)
        requires
            old(self).folder_count < usize::MAX,
        ensures
            final(self).folder_count == old(self).folder_count + 1,
            final(self).files@ == old(self).files@,
            final(self).start@ == old(self).start@,
            old(self).wf() ==> final(self).wf(),
    {
        self.folder_count = self.folder_count + 1;
    }

    /// Records a file met by the walk.
    pub fn add_file(&mut self, path: &str, size: u64, modified: u64)
        requires
            old(self).wf(),
            old(self).total_size + size <= u64::MAX,
            old(self).file_count < usize::MAX,
        ensures
            final(self).wf(),
            final(self).files@ == old(self).files@.push((path@, size, modified)),
            final(self).start@ == old(self).start@,
            final(self).folder_count == old(self).folder_count,
    {
        let ghost rec: FileRecord = (path@, size, modified);
        let ghost files = self.files@.push(rec);
        assert(files.drop_last() =~= self.files@);
        self.file_count = self.file_count + 1;
        self.total_size = self.total_size + size;
        if size > self.largest_size {
            self.largest_size = size;
            self.largest_path = String::from_str(path);
        }
        if modified > self.newest_time {
            self.newest_time = modified;
            self.newest_path = String::from_str(path);
        }
        if modified > 0 && modified < self.oldest_time {
            self.oldest_time = modified;
            self.oldest_path = String::from_str(path);
        }
        self.files = Ghost(files);
    }
}

/// The reported total is the sum of the sizes of the reported files.
pub proof fn total_is_sum(files: Seq<FileRecord>)
    ensures
        total_of(files) == files.fold_left(0int, |acc: int, f: FileRecord| acc + f.1),
    decreases files.len(),
{
    if files.len() > 0 {
        total_is_sum(files.drop_last());
    }
}

/// The largest file is at least as large as every reported file, and it is a
/// reported file (with that size) unless no file has a positive size.
pub proof fn largest_is_maximum(start: Seq<char>, files: Seq<FileRecord>)
    ensures
        forall|i: int| 0 <= i < files.len() ==> #[trigger] files[i].1 <= largest_of(start, files).1,
        largest_of(start, files).1 == 0 ==> largest_of(start, files).0 == start,
        largest_of(start, files).1 > 0 ==> exists|i: int|
            0 <= i < files.len() && #[trigger] files[i].0 == largest_of(start, files).0 && files[i].1
                == largest_of(start, files).1,
    decreases files.len(),
{
    if files.len() > 0 {
        let rest = files.drop_last();
        largest_is_maximum(start, rest);
        assert forall|i: int| 0 <= i < files.len() implies #[trigger] files[i].1 <= largest_of(
            start,
            files,
        ).1 by {
            if i < files.len() - 1 {
                assert(files[i] == rest[i]);
            }
        }
        if largest_of(start, files).1 > 0 {
            if files.last().1 > largest_of(start, rest).1 {
                assert(files[files.len() - 1].0 == largest_of(start, files).0);
            } else {
                let i = choose|i: int|
                    0 <= i < rest.len() && #[trigger] rest[i].0 == largest_of(start, rest).0
                        && rest[i].1 == largest_of(start, rest).1;
                assert(files[i] == rest[i]);
            }
        }
    }
}

/// The newest file is at least as recent as every reported file, and it is a
/// reported file (with that time) unless no file has a positive time.
pub proof fn newest_is_maximum(start: Seq<char>, files: Seq<FileRecord>)
    ensures
        forall|i: int| 0 <= i < files.len() ==> #[trigger] files[i].2 <= newest_of(start, files).1,
        newest_of(start, files).1 == 0 ==> newest_of(start, files).0 == start,
        newest_of(start, files).1 > 0 ==> exists|i: int|
            0 <= i < files.len() && #[trigger] files[i].0 == newest_of(start, files).0 && files[i].2
                == newest_of(start, files).1,
    decreases files.len(),
{
    if files.len() > 0 {
        let rest = files.drop_last();
        newest_is_maximum(start, rest);
        assert forall|i: int| 0 <= i < files.len() implies #[trigger] files[i].2 <= newest_of(
            start,
            files,
        ).1 by {
            if i < files.len() - 1 {
                assert(files[i] == rest[i]);
            }
        }
        if newest_of(start, files).1 > 0 {
            if files.last().2 > newest_of(start, rest).1 {
                assert(files[files.len() - 1].0 == newest_of(start, files).0);
            } else {
                let i = choose|i: int|
                    0 <= i < rest.len() && #[trigger] rest[i].0 == newest_of(start, rest).0
                        && rest[i].2 == newest_of(start, rest).1;
                assert(files[i] == rest[i]);
            }
        }
    }
}

/// The oldest file is no more recent than any reported file with a known
/// (positive) time, and it is such a file unless there is none before
/// `u64::MAX`.
pub proof fn oldest_is_minimum(start: Seq<char>, files: Seq<FileRecord>)
    ensures
        forall|i: int|
            0 <= i < files.len() && files[i].2 > 0 ==> oldest_of(start, files).1 <= #[trigger] files[i].2,
        oldest_of(start, files).1 > 0,
        oldest_of(start, files).1 == u64::MAX ==> oldest_of(start, files).0 == start,
        oldest_of(start, files).1 < u64::MAX ==> exists|i: int|
            0 <= i < files.len() && #[trigger] files[i].0 == oldest_of(start, files).0 && files[i].2
                == oldest_of(start, files).1,
    decreases files.len(),
{
    if files.len() > 0 {
        let rest = files.drop_last();
        oldest_is_minimum(start, rest);
        assert forall|i: int| 0 <= i < files.len() && files[i].2 > 0 implies oldest_of(
            start,
            files,
        ).1 <= #[trigger] files[i].2 by {
            if i < files.len() - 1 {
                assert(files[i] == rest[i]);
            }
        }
        if oldest_of(start, files).1 < u64::MAX {
            if files.last().2 > 0 && files.last().2 < oldest_of(start, rest).1 {
                assert(files[files.len() - 1].0 == oldest_of(start, files).0);
            } else {
                let i = choose|i: int|
                    0 <= i < rest.len() && #[trigger] rest[i].0 == oldest_of(start, rest).0
                        && rest[i].2 == oldest_of(start, rest).1;
                assert(files[i] == rest[i]);
            }
        }
    }
}

/// Of several files of the largest size, the first one reported is the one
/// kept: every file before it is strictly smaller.
pub proof fn largest_is_first_of_its_size(start: Seq<char>, files: Seq<FileRecord>)
    ensures
        largest_of(start, files).1 > 0 ==> exists|i: int|
            0 <= i < files.len() && #[trigger] files[i].0 == largest_of(start, files).0 && files[i].1
                == largest_of(start, files).1 && forall|j: int|
                0 <= j < i ==> #[trigger] files[j].1 < largest_of(start, files).1,
    decreases files.len(),
{
    if files.len() > 0 {
        let rest = files.drop_last();
        largest_is_first_of_its_size(start, rest);
        largest_is_maximum(start, rest);
        let m = largest_of(start, files);
        if m.1 > 0 {
            if files.last().1 > largest_of(start, rest).1 {
                let i = files.len() - 1;
                assert(files[i].0 == m.0);
                assert forall|j: int| 0 <= j < i implies #[trigger] files[j].1 < m.1 by {
                    assert(files[j] == rest[j]);
                }
            } else {
                let i = choose|i: int|
                    0 <= i < rest.len() && #[trigger] rest[i].0 == largest_of(start, rest).0
                        && rest[i].1 == largest_of(start, rest).1 && forall|j: int|
                        0 <= j < i ==> #[trigger] rest[j].1 < largest_of(start, rest).1;
                assert(files[i] == rest[i]);
                assert forall|j: int| 0 <= j < i implies #[trigger] files[j].1 < m.1 by {
                    assert(files[j] == rest[j]);
                }
            }
        }
    }
}

/// Of several files of the newest time, the first one reported is the one
/// kept: every file before it is strictly older.
pub proof fn newest_is_first_of_its_time(start: Seq<char>, files: Seq<FileRecord>)
    ensures
        newest_of(start, files).1 > 0 ==> exists|i: int|
            0 <= i < files.len() && #[trigger] files[i].0 == newest_of(start, files).0 && files[i].2
                == newest_of(start, files).1 && forall|j: int|
                0 <= j < i ==> #[trigger] files[j].2 < newest_of(start, files).1,
    decreases files.len(),
{
    if files.len() > 0 {
        let rest = files.drop_last();
        newest_is_first_of_its_time(start, rest);
        newest_is_maximum(start, rest);
        let m = newest_of(start, files);
        if m.1 > 0 {
            if files.last().2 > newest_of(start, rest).1 {
                let i = files.len() - 1;
                assert(files[i].0 == m.0);
                assert forall|j: int| 0 <= j < i implies #[trigger] files[j].2 < m.1 by {
                    assert(files[j] == rest[j]);
                }
            } else {
                let i = choose|i: int|
                    0 <= i < rest.len() && #[trigger] rest[i].0 == newest_of(start, rest).0
                        && rest[i].2 == newest_of(start, rest).1 && forall|j: int|
                        0 <= j < i ==> #[trigger] rest[j].2 < newest_of(start, rest).1;
                assert(files[i] == rest[i]);
                assert forall|j: int| 0 <= j < i implies #[trigger] files[j].2 < m.1 by {
                    assert(files[j] == rest[j]);
                }
            }
        }
    }
}

/// Of several files of the oldest known time, the first one reported is the
/// one kept: every file before it with a known time is strictly newer.
pub proof fn oldest_is_first_of_its_time(start: Seq<char>, files: Seq<FileRecord>)
    ensures
        oldest_of(start, files).1 < u64::MAX ==> exists|i: int|
            0 <= i < files.len() && #[trigger] files[i].0 == oldest_of(start, files).0 && files[i].2
                == oldest_of(start, files).1 && forall|j: int|
                0 <= j < i && files[j].2 > 0 ==> #[trigger] files[j].2 > oldest_of(start, files).1,
    decreases files.len(),
{
    if files.len() > 0 {
        let rest = files.drop_last();
        oldest_is_first_of_its_time(start, rest);
        oldest_is_minimum(start, rest);
        let m = oldest_of(start, files);
        if m.1 < u64::MAX {
            if files.last().2 > 0 && files.last().2 < oldest_of(start, rest).1 {
                let i = files.len() - 1;
                assert(files[i].0 == m.0);
                assert forall|j: int| 0 <= j < i && files[j].2 > 0 implies #[trigger] files[j].2 > m.1 by {
                    assert(files[j] == rest[j]);
                }
            } else {
                let i = choose|i: int|
                    0 <= i < rest.len() && #[trigger] rest[i].0 == oldest_of(start, rest).0
                        && rest[i].2 == oldest_of(start, rest).1 && forall|j: int|
                        0 <= j < i && rest[j].2 > 0 ==> #[trigger] rest[j].2 > oldest_of(start, rest).1;
                assert(files[i] == rest[i]);
                assert forall|j: int| 0 <= j < i && files[j].2 > 0 implies #[trigger] files[j].2 > m.1 by {
                    assert(files[j] == rest[j]);
                }
            }
        }
    }
}

// ---------------------------------------------------------------------------
// Sizes and ages as shown
// ---------------------------------------------------------------------------

/// The unit a size is shown in.
#[derive(Debug, Clone, Copy, PartialEq, Eq, Structural)]
pub enum SizeUnit {
    B,
    KB,
    MB,
    GB,
}

/// The largest binary unit that does not exceed the size.
pub open spec fn unit_of(bytes: u64) -> SizeUnit {
    if bytes >= 1024 * 1024 * 1024 {
        SizeUnit::GB
    } else if bytes >= 1024 * 1024 {
        SizeUnit::MB
    } else if bytes >= 1024 {
        SizeUnit::KB
    } else {
        SizeUnit::B
    }
}

/// The unit that a size of `bytes` is shown in.
pub fn size_unit(bytes: u64) -> (r: SizeUnit)
    ensures
        r == unit_of(bytes),
{
    if bytes >= 1024 * 1024 * 1024 {
        SizeUnit::GB
    } else if bytes >= 1024 * 1024 {
        SizeUnit::MB
    } else if bytes >= 1024 {
        SizeUnit::KB
    } else {
        SizeUnit::B
    }
}

impl SizeUnit {
    /// Bytes per unit.
    pub open spec fn bytes(self) -> u64 {
        match self {
            SizeUnit::B => 1,
            SizeUnit::KB => 1024,
            SizeUnit::MB => 1048576,
            SizeUnit::GB => 1073741824,
        }
    }

    /// Bytes per unit.
    pub fn divisor(&self) -> (r: u64)
        ensures
            r == self.bytes(),
    {
        match self {
            SizeUnit::B => 1,
            SizeUnit::KB => 1024,
            SizeUnit::MB => 1048576,
            SizeUnit::GB => 1073741824,
        }
    }

    /// The unit's name as shown after the number.
    pub fn label(&self) -> (r: String)
        ensures
            r@ == match self {
                SizeUnit::B => "B"@,
                SizeUnit::KB => "KB"@,
                SizeUnit::MB => "MB"@,
                SizeUnit::GB => "GB"@,
            },
    {
        match self {
            SizeUnit::B => String::from_str("B"),
            SizeUnit::KB => String::from_str("KB"),
            SizeUnit::MB => String::from_str("MB"),
            SizeUnit::GB => String::from_str("GB"),
        }
    }
}

/// The size shown below one kibibyte: the exact number of bytes.
pub fn format_bytes(bytes: u64) -> (r: String)
    requires
        bytes < 1024,
    ensures
        r@ == decimal(bytes as nat) + " B"@,
{
    let mut v: Vec<char> = Vec::new();
    push_decimal(&mut v, bytes);
    append_str(&mut v, " B");
    from_chars(v.as_slice())
}

/// `""` for one, `"s"` otherwise.
pub open spec fn plural(n: int) -> Seq<char> {
    if n == 1 {
        ""@
    } else {
        "s"@
    }
}

/// `"<n> <unit>[s] ago"`.
pub open spec fn ago(n: int, unit: Seq<char>) -> Seq<char> {
    decimal(n as nat) + " "@ + unit + plural(n) + " ago"@
}

/// How long ago `then` was at `now` (both in seconds since the epoch; a `then`
/// after `now` counts as now): in whole minutes, hours, days, 30-day months or
/// 12-month years, whichever is the largest unit that is reached.
pub open spec fn relative_text(now: u64, then: u64) -> Seq<char> {
    let diff: int = if now >= then {
        now - then
    } else {
        0
    };
    let minutes = diff / 60;
    let hours = minutes / 60;
    let days = hours / 24;
    let months = days / 30;
    let years = months / 12;
    if diff < 60 {
        "just now"@
    } else if minutes < 60 {
        ago(minutes, "minute"@)
    } else if hours < 24 {
        ago(hours, "hour"@)
    } else if days < 30 {
        ago(days, "day"@)
    } else if months < 12 {
        ago(months, "month"@)
    } else {
        ago(years, "year"@)
    }
}

/// A time at or after `now` is "just now", as is anything less than a minute
/// ago; beyond that the text counts whole units of the largest unit reached
/// (60 s, 60 min, 24 h, 30 days, 12 months).
pub proof fn ages_count_whole_units(now: u64, then: u64)
    ensures
        then >= now ==> relative_text(now, then) == "just now"@,
        now >= then && now - then < 60 ==> relative_text(now, then) == "just now"@,
        now >= then && 60 <= now - then < 3600 ==> relative_text(now, then) == ago(
            (now - then) / 60,
            "minute"@,
        ),
        now >= then && 3600 <= now - then < 86400 ==> relative_text(now, then) == ago(
            (now - then) / 3600,
            "hour"@,
        ),
        now >= then && 86400 <= now - then < 2592000 ==> relative_text(now, then) == ago(
            (now - then) / 86400,
            "day"@,
        ),
        now >= then && 2592000 <= now - then < 31104000 ==> relative_text(now, then) == ago(
            (now - then) / 2592000,
            "month"@,
        ),
        now >= then && 31104000 <= now - then ==> relative_text(now, then) == ago(
            (now - then) / 31104000,
            "year"@,
        ),
{
    let d: int = now - then;
    if now >= then {
        assert(d / 60 / 60 == d / 3600) by (nonlinear_arith)
            requires
                d >= 0,
        ;
        assert(d / 60 / 60 / 24 == d / 86400) by (nonlinear_arith)
            requires
                d >= 0,
        ;
        assert(d / 60 / 60 / 24 / 30 == d / 2592000) by (nonlinear_arith)
            requires
                d >= 0,
        ;
        assert(d / 60 / 60 / 24 / 30 / 12 == d / 31104000) by (nonlinear_arith)
            requires
                d >= 0,
        ;
    }
}

fn ago_text(n: u64, unit: &str) -> (r: String)
    ensures
        r@ == ago(n as int, unit@),
{
    let mut v: Vec<char> = Vec::new();
    push_decimal(&mut v, n);
    append_str(&mut v, " ");
    append_str(&mut v, unit);
    if n != 1 {
        append_str(&mut v, "s");
    } else {
        proof {
            reveal_strlit("");
            assert(v@ + ""@ =~= v@);
        }
    }
    append_str(&mut v, " ago");
    from_chars(v.as_slice())
}

/// How long ago the time `then` was, at the time `now`.
pub fn format_relative_time(now: u64, then: u64) -> (r: String)
    ensures
        r@ == relative_text(now, then),
{
    let diff = if now >= then {
        now - then
    } else {
        0
    };
    if diff < 60 {
        return String::from_str("just now");
    }
    let minutes = diff / 60;
    if minutes < 60 {
        return ago_text(minutes, "minute");
    }
    let hours = minutes / 60;
    if hours < 24 {
        return ago_text(hours, "hour");
    }
    let days = hours / 24;
    if days < 30 {
        return ago_text(days, "day");
    }
    let months = days / 30;
    if months < 12 {
        return ago_text(months, "month");
    }
    let years = months / 12;
    ago_text(years, "year")
}

} // verus!
