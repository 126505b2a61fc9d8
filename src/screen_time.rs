use vstd::prelude::*;
use crate::model::ScreenTimeEntry;
use crate::reconcile::sat_add;
use crate::report::ScreenTimePayload;
use crate::text::{chars_of, lower_of, lowercase, seq_contains, str_contains, string_of};

verus! {

/// What `str::to_uppercase` makes of a string.
pub uninterp spec fn upper_of(s: Seq<char>) -> Seq<char>;

/// Relies on `str::to_uppercase`: its result depends on the characters alone.
#[verifier::external_body]
pub fn uppercase(s: &str) -> (r: String)
    ensures
        r@ == upper_of(s@),
{
    s.to_uppercase()
}

/// The applications whose foreground time is tracked, by name fragment.
pub open spec fn relevant_apps() -> Seq<&'static str> {
    seq![
        "chrome", "firefox", "edge", "brave", "opera", "code", "visual studio", "sublime",
        "notepad++", "word", "excel", "powerpoint", "outlook", "teams", "slack", "discord", "zoom",
        "obs", "spotify", "photoshop", "illustrator", "premiere", "aftereffects",
    ]
}

/// A process whose lower-cased name holds one of the tracked fragments.
pub open spec fn is_relevant(name: Seq<char>) -> bool {
    exists|i: int| 0 <= i < relevant_apps().len() && seq_contains(lower_of(name), (#[trigger] relevant_apps()[i])@)
}

/// Whether the process `name` belongs to a tracked application.
pub fn is_relevant_app(name: &str) -> (r: bool)
    ensures
        r == is_relevant(name@),
{
    let lower = lowercase(name);
    let apps: Vec<&'static str> = vec![
        "chrome", "firefox", "edge", "brave", "opera", "code", "visual studio", "sublime",
        "notepad++", "word", "excel", "powerpoint", "outlook", "teams", "slack", "discord", "zoom",
        "obs", "spotify", "photoshop", "illustrator", "premiere", "aftereffects",
    ];
    assert(apps@ == relevant_apps());
    let mut i: usize = 0;
    while i < apps.len()
        invariant
            apps@ == relevant_apps(),
            lower@ == lower_of(name@),
            i <= apps@.len(),
            forall|j: int| 0 <= j < i ==> !seq_contains(lower_of(name@), (#[trigger] relevant_apps()[j])@),
        decreases apps@.len() - i,
    {
        if str_contains(lower.as_str(), apps[i]) {
            return true;
        }
        i = i + 1;
    }
    false
}

/// `s` with every occurrence of `pat` removed, scanning left to right.
pub open spec fn remove_all(s: Seq<char>, pat: Seq<char>) -> Seq<char>
    decreases s.len(),
{
    if pat.len() == 0 || s.len() < pat.len() {
        s
    } else if s.subrange(0, pat.len() as int) == pat {
        remove_all(s.subrange(pat.len() as int, s.len() as int), pat)
    } else {
        seq![s[0]] + remove_all(s.subrange(1, s.len() as int), pat)
    }
}

fn remove_chars(s: &Vec<char>, pat: &Vec<char>) -> (r: Vec<char>)
    ensures
        r@ == remove_all(s@, pat@),
{
    let n = s.len();
    let m = pat.len();
    let mut out: Vec<char> = Vec::new();
    if m == 0 || n < m {
        let mut k: usize = 0;
        while k < n
            invariant
                n == s@.len(),
                k <= n,
                out@ == s@.subrange(0, k as int),
            decreases n - k,
        {
            out.push(s[k]);
            k = k + 1;
        }
        assert(out@ =~= s@);
        return out;
    }
    let mut i: usize = 0;
    assert(s@.subrange(0, n as int) =~= s@);
    assert(out@ + remove_all(s@.subrange(0, n as int), pat@) =~= remove_all(s@, pat@));
    while i < n
        invariant
            n == s@.len(),
            m == pat@.len(),
            0 < m,
            i <= n,
            out@ + remove_all(s@.subrange(i as int, n as int), pat@) == remove_all(s@, pat@),
        decreases n - i,
    {
        let ghost rest = s@.subrange(i as int, n as int);
        let mut hit = false;
        if n - i >= m {
            let mut k: usize = 0;
            hit = true;
            while k < m
                invariant
                    n == s@.len(),
                    m == pat@.len(),
                    i + m <= n,
                    k <= m,
                    hit == forall|t: int| 0 <= t < k ==> s@[i + t] == pat@[t],
                decreases m - k,
            {
                if s[i + k] != pat[k] {
                    hit = false;
                }
                k = k + 1;
            }
            proof {
                if hit {
                    assert(rest.subrange(0, m as int) =~= pat@);
                } else {
                    let t = choose|t: int| 0 <= t < m && s@[i + t] != pat@[t];
                    assert(rest.subrange(0, m as int)[t] != pat@[t]);
                }
            }
        }
        if hit {
            proof {
                assert(rest.subrange(m as int, rest.len() as int) =~= s@.subrange(i + m, n as int));
            }
            i = i + m;
        } else {
            proof {
                assert(rest.subrange(1, rest.len() as int) =~= s@.subrange(i + 1, n as int));
                assert(out@.push(s@[i as int]) + remove_all(s@.subrange(i + 1, n as int), pat@) =~= out@ + (seq![
                    rest[0],
                ] + remove_all(rest.subrange(1, rest.len() as int), pat@)));
            }
            out.push(s[i]);
            i = i + 1;
        }
    }
    assert(s@.subrange(n as int, n as int) =~= Seq::<char>::empty());
    assert(out@ + Seq::<char>::empty() =~= out@);
    out
}

/// The application name a process name is tallied under: the suffixes `.exe`,
/// `.bin` and `.app` removed, then upper-cased.
pub open spec fn app_key(name: Seq<char>) -> Seq<char> {
    upper_of(remove_all(remove_all(remove_all(name, ".exe"@), ".bin"@), ".app"@))
}

/// The application name a process name is tallied under.
pub fn clean_process_name(name: &str) -> (r: String)
    ensures
        r@ == app_key(name@),
{
    let a = remove_chars(&chars_of(name), &chars_of(".exe"));
    let b = remove_chars(&a, &chars_of(".bin"));
    let c = remove_chars(&b, &chars_of(".app"));
    let s = string_of(&c);
    uppercase(s.as_str())
}

/// The agent's running tally of foreground seconds per application since the
/// last report.
pub struct ScreenTimeTracker {
    pub totals: Vec<ScreenTimePayload>,
}

/// The tally as application names and seconds.
pub open spec fn tally_view(ts: Seq<ScreenTimePayload>) -> Seq<(Seq<char>, u64)> {
    ts.map_values(|t: ScreenTimePayload| (t.app_name@, t.total_seconds))
}

pub open spec fn is_first_key(vs: Seq<(Seq<char>, u64)>, app: Seq<char>, k: int) -> bool {
    &&& 0 <= k < vs.len()
    &&& vs[k].0 == app
    &&& forall|j: int| 0 <= j < k ==> vs[j].0 != app
}

pub open spec fn key_index(vs: Seq<(Seq<char>, u64)>, app: Seq<char>) -> int {
    if exists|k: int| is_first_key(vs, app, k) {
        choose|k: int| is_first_key(vs, app, k)
    } else {
        -1
    }
}

/// Adds `secs` to the tally of application `app`, or starts it.
pub open spec fn add_time(vs: Seq<(Seq<char>, u64)>, app: Seq<char>, secs: u64) -> Seq<(Seq<char>, u64)> {
    let k = key_index(vs, app);
    if k >= 0 {
        vs.update(k, (app, sat_add(vs[k].1, secs)))
    } else {
        vs.push((app, secs))
    }
}

/// The tally after one sample in which the processes `names` ran for `secs`
/// seconds: each tracked process adds to its application's total.
pub open spec fn tally(vs: Seq<(Seq<char>, u64)>, names: Seq<Seq<char>>, secs: u64) -> Seq<(Seq<char>, u64)>
    decreases names.len(),
{
    if names.len() == 0 {
        vs
    } else {
        let before = tally(vs, names.drop_last(), secs);
        if is_relevant(names.last()) {
            add_time(before, app_key(names.last()), secs)
        } else {
            before
        }
    }
}

proof fn lemma_first_key_unique(vs: Seq<(Seq<char>, u64)>, app: Seq<char>, k: int)
    requires
        is_first_key(vs, app, k),
    ensures
        key_index(vs, app) == k,
{
    let c = choose|c: int| is_first_key(vs, app, c);
    assert(is_first_key(vs, app, c));
    if c < k {
        assert(vs[c].0 != app);
    } else if k < c {
        assert(vs[k].0 != app);
    }
}

fn find_key(ts: &Vec<ScreenTimePayload>, app: &String) -> (r: Option<usize>)
    ensures
        match r {
            Some(k) => k < ts@.len() && key_index(tally_view(ts@), app@) == k as int,
            None => key_index(tally_view(ts@), app@) == -1,
        },
{
    let ghost vs = tally_view(ts@);
    let mut k: usize = 0;
    while k < ts.len()
        invariant
            vs == tally_view(ts@),
            k <= ts@.len(),
            forall|j: int| 0 <= j < k ==> vs[j].0 != app@,
        decreases ts@.len() - k,
    {
        if ts[k].app_name == *app {
            proof {
                lemma_first_key_unique(vs, app@, k as int);
            }
            return Some(k);
        }
        k = k + 1;
    }
    assert(!exists|c: int| is_first_key(vs, app@, c));
    None
}

impl ScreenTimeTracker {
    pub fn new() -> (r: ScreenTimeTracker)
        ensures
            r.totals@.len() == 0,
    {
        ScreenTimeTracker { totals: Vec::new() }
    }

    /// Adds `secs` seconds to every tracked application among the running
    /// processes `names`.
    pub fn record_sample(&mut self, names: &Vec<String>, secs: u64)
        ensures
            tally_view(final(self).totals@) == tally(
                tally_view(old(self).totals@),
                crate::report::strings_view(names@),
                secs,
            ),
    {
        let ghost start = tally_view(self.totals@);
        let mut i: usize = 0;
        while i < names.len()
            invariant
                i <= names@.len(),
                start == tally_view(old(self).totals@),
                tally_view(self.totals@) == tally(
                    start,
                    crate::report::strings_view(names@).subrange(0, i as int),
                    secs,
                ),
            decreases names@.len() - i,
        {
            let name = &names[i];
            let ghost sub = crate::report::strings_view(names@).subrange(0, i + 1);
            proof {
                assert(sub.drop_last() =~= crate::report::strings_view(names@).subrange(0, i as int));
                assert(sub.last() == name@);
            }
            if is_relevant_app(name.as_str()) {
                let app = clean_process_name(name.as_str());
                let ghost vs = tally_view(self.totals@);
                match find_key(&self.totals, &app) {
                    Some(k) => {
                        let total = self.totals[k].total_seconds.saturating_add(secs);
                        let entry = ScreenTimePayload { app_name: app, total_seconds: total };
                        self.totals.set(k, entry);
                        assert(tally_view(self.totals@) =~= add_time(vs, app_key(name@), secs));
                    },
                    None => {
                        self.totals.push(ScreenTimePayload { app_name: app, total_seconds: secs });
                        assert(tally_view(self.totals@) =~= add_time(vs, app_key(name@), secs));
                    },
                }
            }
            i = i + 1;
        }
        assert(crate::report::strings_view(names@).subrange(0, names@.len() as int) =~= crate::report::strings_view(
            names@,
        ));
    }

    /// The tallies as entries for day `day`.
    pub fn get_daily_stats(&self, day: u64) -> (r: Vec<ScreenTimeEntry>)
        ensures
            r@.len() == self.totals@.len(),
            forall|i: int|
                0 <= i < r@.len() ==> {
                    &&& (#[trigger] r@[i]).app_name == self.totals@[i].app_name
                    &&& r@[i].total_seconds == self.totals@[i].total_seconds
                    &&& r@[i].date == day
                },
    {
        let mut out: Vec<ScreenTimeEntry> = Vec::new();
        let mut i: usize = 0;
        while i < self.totals.len()
            invariant
                i <= self.totals@.len(),
                out@.len() == i,
                forall|k: int|
                    0 <= k < i ==> {
                        &&& (#[trigger] out@[k]).app_name == self.totals@[k].app_name
                        &&& out@[k].total_seconds == self.totals@[k].total_seconds
                        &&& out@[k].date == day
                    },
            decreases self.totals@.len() - i,
        {
            out.push(
                ScreenTimeEntry {
                    app_name: self.totals[i].app_name.clone(),
                    total_seconds: self.totals[i].total_seconds,
                    date: day,
                },
            );
            i = i + 1;
        }
        out
    }

    /// Hands out the tallies gathered since the last call, as the deltas a
    /// report carries, and starts afresh.
    pub fn take_deltas(&mut self) -> (r: Vec<ScreenTimePayload>)
        ensures
            r == old(self).totals,
            final(self).totals@.len() == 0,
    {
        let mut out: Vec<ScreenTimePayload> = Vec::new();
        std::mem::swap(&mut out, &mut self.totals);
        out
    }
}

} // verus!
