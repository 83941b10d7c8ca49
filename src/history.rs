//! The installation history: newest record first, at most a fixed number
//! of records.

use vstd::prelude::*;

use crate::package::PackageSource;
use crate::text::{decimal, push_decimal};

verus! {

/// The most records a history keeps.
pub const MAX_HISTORY_ENTRIES: usize = 500;

/// Relies on `SystemTime::now`: seconds since the Unix epoch, 0 when the
/// clock is set before it. Nothing is promised of the value.
#[verifier::external_body]
pub fn current_timestamp() -> (r: u64) {
    std::time::SystemTime::now().duration_since(std::time::UNIX_EPOCH).unwrap_or_default().as_secs()
}

/// One installation attempt.
#[derive(Debug, Clone)]
pub struct InstallRecord {
    /// The package.
    pub name: String,
    /// Where it came from.
    pub source: PackageSource,
    /// When, in seconds since the Unix epoch.
    pub timestamp: u64,
    /// Whether it went through.
    pub success: bool,
    /// Why it failed, when it did.
    pub error: Option<String>,
}

/// How long ago something happened, `secs` seconds back.
pub open spec fn elapsed_text(secs: nat) -> Seq<char> {
    if secs < 60 {
        "just now"@
    } else if secs < 3600 {
        decimal(secs / 60) + " min ago"@
    } else if secs < 86400 {
        decimal(secs / 3600) + " hours ago"@
    } else {
        decimal(secs / 86400) + " days ago"@
    }
}

/// How long before `now` a record stamped `timestamp` was made; a record
/// from the future is "just now".
pub open spec fn age_text(timestamp: u64, now: u64) -> Seq<char> {
    elapsed_text(if now >= timestamp {
        (now - timestamp) as nat
    } else {
        0
    })
}

impl InstallRecord {
    /// A successful installation, stamped now.
    pub fn success(name: &str, source: PackageSource) -> (r: Self)
        ensures
            r.name@ == name@,
            r.source == source,
            r.success,
            r.error is None,
    {
        InstallRecord {
            name: name.to_owned(),
            source,
            timestamp: current_timestamp(),
            success: true,
            error: None,
        }
    }

    /// A failed installation and its reason, stamped now.
    pub fn failure(name: &str, source: PackageSource, error: &str) -> (r: Self)
        ensures
            r.name@ == name@,
            r.source == source,
            !r.success,
            r.error matches Some(e) && e@ == error@,
    {
        InstallRecord {
            name: name.to_owned(),
            source,
            timestamp: current_timestamp(),
            success: false,
            error: Some(error.to_owned()),
        }
    }

    /// How long before `now` the record was made; a record from the future
    /// is "just now".
    pub fn formatted_time_at(&self, now: u64) -> (r: String)
        ensures
            r@ == age_text(self.timestamp, now),
    {
        let diff = now.saturating_sub(self.timestamp);
        let mut out = String::new();
        if diff < 60 {
            out.append("just now");
        } else if diff < 3600 {
            push_decimal(&mut out, (diff / 60) as u128);
            out.append(" min ago");
        } else if diff < 86400 {
            push_decimal(&mut out, (diff / 3600) as u128);
            out.append(" hours ago");
        } else {
            push_decimal(&mut out, (diff / 86400) as u128);
            out.append(" days ago");
        }
        out
    }

    /// How long ago the record was made, by the clock now.
    pub fn formatted_time(&self) -> (r: String)
        ensures
            exists|now: u64| r@ == #[trigger] age_text(self.timestamp, now),
    {
        let now = current_timestamp();
        self.formatted_time_at(now)
    }
}

/// How many records went through.
pub open spec fn successes(rs: Seq<InstallRecord>) -> nat
    decreases rs.len(),
{
    if rs.len() == 0 {
        0
    } else {
        successes(rs.drop_last()) + if rs.last().success {
            1nat
        } else {
            0nat
        }
    }
}

/// How many records failed.
pub open spec fn failures(rs: Seq<InstallRecord>) -> nat
    decreases rs.len(),
{
    if rs.len() == 0 {
        0
    } else {
        failures(rs.drop_last()) + if rs.last().success {
            0nat
        } else {
            1nat
        }
    }
}

/// The installation history, newest first.
#[derive(Debug)]
pub struct History {
    pub records: Vec<InstallRecord>,
}

impl Default for History {
    fn default() -> (r: Self)
        ensures
            r.records@.len() == 0,
    {
        History { records: Vec::new() }
    }
}

impl History {
    /// Puts `record` first, dropping the oldest records beyond the limit.
    pub fn add(&mut self, record: InstallRecord)
        ensures
            final(self).records@ == (seq![record] + old(self).records@).take(
                if old(self).records@.len() + 1 > MAX_HISTORY_ENTRIES {
                    MAX_HISTORY_ENTRIES as int
                } else {
                    (old(self).records@.len() + 1) as int
                },
            ),
    {
        let ghost before = self.records@;
        self.records.insert(0, record);
        assert(self.records@ =~= seq![record] + before);
        if self.records.len() > MAX_HISTORY_ENTRIES {
            self.records.truncate(MAX_HISTORY_ENTRIES);
        } else {
            assert(self.records@ =~= self.records@.take(self.records@.len() as int));
        }
    }

    /// Records a successful installation.
    pub fn record_success(&mut self, name: &str, source: PackageSource)
        ensures
            final(self).records@.len() > 0,
            final(self).records@[0].name@ == name@,
            final(self).records@[0].source == source,
            final(self).records@[0].success,
            final(self).records@.skip(1) == old(self).records@.take(
                final(self).records@.len() - 1,
            ),
    {
        self.add(InstallRecord::success(name, source));
        assert(self.records@.skip(1) =~= old(self).records@.take(self.records@.len() - 1));
    }

    /// Records a failed installation and its reason.
    pub fn record_failure(&mut self, name: &str, source: PackageSource, error: &str)
        ensures
            final(self).records@.len() > 0,
            final(self).records@[0].name@ == name@,
            final(self).records@[0].source == source,
            !final(self).records@[0].success,
            final(self).records@[0].error matches Some(e) && e@ == error@,
            final(self).records@.skip(1) == old(self).records@.take(
                final(self).records@.len() - 1,
            ),
    {
        self.add(InstallRecord::failure(name, source, error));
        assert(self.records@.skip(1) =~= old(self).records@.take(self.records@.len() - 1));
    }

    /// The `count` newest records, or all of them when there are fewer.
    pub fn recent(&self, count: usize) -> (r: &[InstallRecord])
        ensures
            r@ == self.records@.take(
                if count < self.records@.len() {
                    count as int
                } else {
                    self.records@.len() as int
                },
            ),
    {
        let end = if count < self.records.len() {
            count
        } else {
            self.records.len()
        };
        let all = self.records.as_slice();
        let r = &all[0..end];
        assert(r@ =~= self.records@.take(end as int));
        r
    }

    /// How many installations went through.
    pub fn success_count(&self) -> (r: usize)
        ensures
            r == successes(self.records@),
    {
        let mut n: usize = 0;
        let mut i: usize = 0;
        while i < self.records.len()
            invariant
                i <= self.records@.len(),
                n == successes(self.records@.take(i as int)),
                n <= i,
            decreases self.records@.len() - i,
        {
            assert(self.records@.take(i + 1).drop_last() =~= self.records@.take(i as int));
            if self.records[i].success {
                n = n + 1;
            }
            i = i + 1;
        }
        assert(self.records@.take(i as int) =~= self.records@);
        n
    }

    /// How many installations failed.
    pub fn failure_count(&self) -> (r: usize)
        ensures
            r == failures(self.records@),
    {
        let mut n: usize = 0;
        let mut i: usize = 0;
        while i < self.records.len()
            invariant
                i <= self.records@.len(),
                n == failures(self.records@.take(i as int)),
                n <= i,
            decreases self.records@.len() - i,
        {
            assert(self.records@.take(i + 1).drop_last() =~= self.records@.take(i as int));
            if !self.records[i].success {
                n = n + 1;
            }
            i = i + 1;
        }
        assert(self.records@.take(i as int) =~= self.records@);
        n
    }

    /// The newest record, if any.
    pub fn last(&self) -> (r: Option<&InstallRecord>)
        ensures
            self.records@.len() == 0 ==> r is None,
            self.records@.len() > 0 ==> r == Some(&self.records@[0]),
    {
        self.records.as_slice().first()
    }

    /// Forgets every record.
    pub fn clear(&mut self)
        ensures
            final(self).records@.len() == 0,
    {
        self.records.clear();
    }
}

} // verus!
