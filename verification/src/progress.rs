use vstd::prelude::*;
use crate::digits::{dec_rep, usize_to_string};
use vstd::arithmetic::div_mod::{lemma_div_by_multiple, lemma_div_is_ordered};
use vstd::string::StringExecFns;

verus! {

/// Progress accounting for one run: completed work units against a
/// total fixed once after sampling, with throttled reporting. Workers
/// that share one tracker must guard it with exclusive access; the
/// state and its transitions live here.
pub struct ProgressTracker {
    pub completed: usize,
    pub total: usize,
    pub report_interval: usize,
}

/// The reporting interval: one report about every percent of the
/// total, at least one unit, at most `configured_max` units.
pub open spec fn interval_spec(total: nat, configured_max: nat) -> int {
    vstd::math::min(configured_max as int, vstd::math::max(1, total as int / 100))
}

/// Progress in hundredths of a percent, rounded down.
pub open spec fn percent_hundredths(completed: nat, total: nat) -> nat {
    (completed * 10000 / total) as nat
}

/// The fractional percent part, always two digits.
pub open spec fn two_digits(n: nat) -> Seq<char> {
    if n < 10 {
        seq!['0'] + dec_rep(n)
    } else {
        dec_rep(n)
    }
}

/// One progress report: `Progress: XX.XX% (completed/total)`, the
/// percentage written with two decimal places.
pub open spec fn report_line_spec(completed: nat, total: nat) -> Seq<char> {
    "Progress: "@ + dec_rep(percent_hundredths(completed, total) / 100) + seq!['.'] + two_digits(
        percent_hundredths(completed, total) % 100,
    ) + "% ("@ + dec_rep(completed) + seq!['/'] + dec_rep(total) + seq![')']
}

impl ProgressTracker {
    pub open spec fn wf(&self) -> bool {
        &&& self.completed <= self.total
        &&& self.report_interval >= 1
    }

    /// A fresh tracker: nothing completed yet, the reporting interval
    /// fixed from the final total.
    pub fn new(total: usize, configured_max: usize) -> (t: Self)
        requires
            configured_max >= 1,
        ensures
            t.wf(),
            t.completed == 0,
            t.total == total,
            t.report_interval == interval_spec(total as nat, configured_max as nat),
    {
        let base: usize = total / 100;
        let base: usize = if base < 1 {
            1
        } else {
            base
        };
        let iv: usize = if configured_max < base {
            configured_max
        } else {
            base
        };
        ProgressTracker { completed: 0, total, report_interval: iv }
    }

    /// Count `by` more units done. The count saturates at the total:
    /// it never passes it. Returns the new count.
    pub fn advance(&mut self, by: usize) -> (newly: usize)
        requires
            old(self).wf(),
        ensures
            final(self).wf(),
            final(self).total == old(self).total,
            final(self).report_interval == old(self).report_interval,
            final(self).completed == vstd::math::min(
                old(self).completed + by,
                old(self).total as int,
            ),
            newly == final(self).completed,
    {
        let room = self.total - self.completed;
        if by >= room {
            self.completed = self.total;
        } else {
            self.completed = self.completed + by;
        }
        self.completed
    }

    /// A report is due exactly when the count has reached a multiple
    /// of the reporting interval.
    pub fn should_report(&self, new_completed: usize) -> (b: bool)
        requires
            self.wf(),
        ensures
            b == (new_completed as int % self.report_interval as int == 0),
    {
        new_completed % self.report_interval == 0
    }

    /// Render the progress line for the current state.
    pub fn report_line(&self) -> (r: String)
        requires
            self.wf(),
            self.total >= 1,
        ensures
            r@ == report_line_spec(self.completed as nat, self.total as nat),
    {
        let wide: u128 = (self.completed as u128) * 10000 / (self.total as u128);
        proof {
            assert(self.completed as int * 10000 <= self.total as int * 10000);
            lemma_div_is_ordered(
                self.completed as int * 10000,
                self.total as int * 10000,
                self.total as int,
            );
            lemma_div_by_multiple(10000, self.total as int);
        }
        let h: usize = wide as usize;
        assert(h == percent_hundredths(self.completed as nat, self.total as nat));
        let mut s = String::from_str("Progress: ");
        s.append(usize_to_string(h / 100).as_str());
        crate::strutil::push_char(&mut s, '.');
        if h % 100 < 10 {
            crate::strutil::push_char(&mut s, '0');
        }
        s.append(usize_to_string(h % 100).as_str());
        s.append("% (");
        s.append(usize_to_string(self.completed).as_str());
        crate::strutil::push_char(&mut s, '/');
        s.append(usize_to_string(self.total).as_str());
        crate::strutil::push_char(&mut s, ')');
        proof {
            assert(s@ =~= report_line_spec(self.completed as nat, self.total as nat));
        }
        s
    }
}

} // verus!
