//! The live usage statistics the metrics stream carries.

use vstd::prelude::*;
use crate::json::{
    int_text, spec_parse_lit, spec_parse_nat, parse_lit, parse_nat,
};

verus! {

/// Mathematical value of a [`Stats`].
pub struct StatsView {
    pub filled_total: int,
    pub filled_this_hour: int,
    pub filled_today: int,
    pub filled_this_week: int,
    pub currently_active_users: int,
}

/// One snapshot of the upstream statistics view.
#[derive(Debug, Clone, Copy, PartialEq, Eq, Structural)]
pub struct Stats {
    pub filled_total: u64,
    pub filled_this_hour: u64,
    pub filled_today: u64,
    pub filled_this_week: u64,
    pub currently_active_users: u64,
}

impl View for Stats {
    type V = StatsView;

    open spec fn view(&self) -> StatsView {
        StatsView {
            filled_total: self.filled_total as int,
            filled_this_hour: self.filled_this_hour as int,
            filled_today: self.filled_today as int,
            filled_this_week: self.filled_this_week as int,
            currently_active_users: self.currently_active_users as int,
        }
    }
}

impl Default for Stats {
    /// All counters at zero, the state shown before the first snapshot
    /// arrives.
    fn default() -> (s: Stats)
        ensures
            s.filled_total == 0,
            s.filled_this_hour == 0,
            s.filled_today == 0,
            s.filled_this_week == 0,
            s.currently_active_users == 0,
    {
        Stats {
            filled_total: 0,
            filled_this_hour: 0,
            filled_today: 0,
            filled_this_week: 0,
            currently_active_users: 0,
        }
    }
}

/// The canonical text of a statistics snapshot.
pub open spec fn stats_text(v: StatsView) -> Seq<char> {
    "{\"filled_total\":"@ + int_text(v.filled_total) + ",\"filled_this_hour\":"@
        + int_text(v.filled_this_hour) + ",\"filled_today\":"@ + int_text(v.filled_today)
        + ",\"filled_this_week\":"@ + int_text(v.filled_this_week)
        + ",\"currently_active_users\":"@ + int_text(v.currently_active_users) + "}"@
}

/// The snapshot whose canonical text the whole of `s` is, if any.
pub open spec fn spec_parse_stats(s: Seq<char>) -> Option<StatsView> {
    match spec_parse_lit(s, 0, "{\"filled_total\":"@) {
        Some(i1) => match spec_parse_nat(s, i1) {
            Some((a, i2)) => match spec_parse_lit(s, i2, ",\"filled_this_hour\":"@) {
                Some(i3) => match spec_parse_nat(s, i3) {
                    Some((b, i4)) => match spec_parse_lit(s, i4, ",\"filled_today\":"@) {
                        Some(i5) => match spec_parse_nat(s, i5) {
                            Some((c, i6)) => match spec_parse_lit(s, i6, ",\"filled_this_week\":"@) {
                                Some(i7) => match spec_parse_nat(s, i7) {
                                    Some((d, i8)) => match spec_parse_lit(
                                        s,
                                        i8,
                                        ",\"currently_active_users\":"@,
                                    ) {
                                        Some(i9) => match spec_parse_nat(s, i9) {
                                            Some((e, i10)) => match spec_parse_lit(s, i10, "}"@) {
                                                Some(i11) => if i11 == s.len() {
                                                    Some(StatsView {
                                                        filled_total: a,
                                                        filled_this_hour: b,
                                                        filled_today: c,
                                                        filled_this_week: d,
                                                        currently_active_users: e,
                                                    })
                                                } else {
                                                    None
                                                },
                                                None => None,
                                            },
                                            None => None,
                                        },
                                        None => None,
                                    },
                                    None => None,
                                },
                                None => None,
                            },
                            None => None,
                        },
                        None => None,
                    },
                    None => None,
                },
                None => None,
            },
            None => None,
        },
        None => None,
    }
}

/// Decodes one whole statistics snapshot.
pub fn parse_stats(s: &str) -> (r: Option<Stats>)
    ensures
        match r {
            Some(st) => spec_parse_stats(s@) == Some(st@),
            None => spec_parse_stats(s@) is None,
        },
{
    let i1 = match parse_lit(s, 0, "{\"filled_total\":") {
        Some(p) => p,
        None => { return None; },
    };
    let (a, i2) = match parse_nat(s, i1) {
        Some(p) => p,
        None => { return None; },
    };
    let i3 = match parse_lit(s, i2, ",\"filled_this_hour\":") {
        Some(p) => p,
        None => { return None; },
    };
    let (b, i4) = match parse_nat(s, i3) {
        Some(p) => p,
        None => { return None; },
    };
    let i5 = match parse_lit(s, i4, ",\"filled_today\":") {
        Some(p) => p,
        None => { return None; },
    };
    let (c, i6) = match parse_nat(s, i5) {
        Some(p) => p,
        None => { return None; },
    };
    let i7 = match parse_lit(s, i6, ",\"filled_this_week\":") {
        Some(p) => p,
        None => { return None; },
    };
    let (d, i8) = match parse_nat(s, i7) {
        Some(p) => p,
        None => { return None; },
    };
    let i9 = match parse_lit(s, i8, ",\"currently_active_users\":") {
        Some(p) => p,
        None => { return None; },
    };
    let (e, i10) = match parse_nat(s, i9) {
        Some(p) => p,
        None => { return None; },
    };
    let i11 = match parse_lit(s, i10, "}") {
        Some(p) => p,
        None => { return None; },
    };
    if i11 == s.unicode_len() {
        Some(Stats {
            filled_total: a,
            filled_this_hour: b,
            filled_today: c,
            filled_this_week: d,
            currently_active_users: e,
        })
    } else {
        None
    }
}

} // verus!
