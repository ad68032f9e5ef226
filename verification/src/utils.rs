//! Small tools used across the library: the quality filter and the running
//! mean.

use vstd::prelude::*;

verus! {

/// The rows among the first `n` whose quality flag is 0 (good), in ascending
/// order.
pub open spec fn good_rows(flags: Seq<u8>, n: nat) -> Seq<int>
    decreases n,
{
    if n == 0 {
        Seq::empty()
    } else if flags[n - 1] == 0 {
        good_rows(flags, (n - 1) as nat).push(n - 1)
    } else {
        good_rows(flags, (n - 1) as nat)
    }
}

/// The values of `arr` at the given rows.
pub open spec fn select<T>(arr: Seq<T>, rows: Seq<int>) -> Seq<T> {
    rows.map_values(|i: int| arr[i])
}

/// The number of rows that a column and its flags have in common.
pub open spec fn common_len<T>(arr: Seq<T>, flags: Seq<u8>) -> nat {
    if arr.len() <= flags.len() {
        arr.len()
    } else {
        flags.len()
    }
}

/// The good rows are exactly the rows below `n` whose flag is 0, and they are
/// listed in strictly ascending order.
pub proof fn lemma_good_rows(flags: Seq<u8>, n: nat)
    requires
        n <= flags.len(),
    ensures
        forall|k: int| 0 <= k < good_rows(flags, n).len() ==> {
            let i = #[trigger] good_rows(flags, n)[k];
            0 <= i < n && flags[i] == 0
        },
        forall|i: int| 0 <= i < n && flags[i] == 0 ==> good_rows(flags, n).contains(i),
        forall|k: int, l: int|
            0 <= k < l < good_rows(flags, n).len() ==> good_rows(flags, n)[k] < good_rows(flags, n)[l],
        good_rows(flags, n).len() <= n,
    decreases n,
{
    if n > 0 {
        let prev = good_rows(flags, (n - 1) as nat);
        lemma_good_rows(flags, (n - 1) as nat);
        let rows = good_rows(flags, n);
        assert forall|i: int| 0 <= i < n && flags[i] == 0 implies rows.contains(i) by {
            if i < n - 1 {
                assert(prev.contains(i));
                let k = choose|k: int| 0 <= k < prev.len() && prev[k] == i;
                assert(rows[k] == i);
            } else {
                assert(rows[rows.len() - 1] == i);
            }
        }
    }
}

/// The values of a column in the rows of good quality.
///
/// `arr` holds one value per row and `flags` the quality flag of each row. The
/// result holds the values of the rows whose flag is 0, in their order. Where
/// the two differ in length, only the rows that both have are looked at.
pub fn filter_by_quality<T: Copy>(arr: &Vec<T>, flags: &Vec<u8>) -> (out: Vec<T>)
    ensures
        out@ == select(arr@, good_rows(flags@, common_len(arr@, flags@))),
{
    let n = if arr.len() <= flags.len() {
        arr.len()
    } else {
        flags.len()
    };
    let mut out: Vec<T> = Vec::new();
    let mut i: usize = 0;
    while i < n
        invariant
            i <= n,
            n == common_len(arr@, flags@),
            out@ == select(arr@, good_rows(flags@, i as nat)),
        decreases n - i,
    {
        if flags[i] == 0 {
            out.push(arr[i]);
            assert(out@ =~= select(arr@, good_rows(flags@, (i + 1) as nat)));
        }
        i = i + 1;
    }
    out
}

/// The sum of a sequence of values.
pub open spec fn total(values: Seq<i64>) -> int
    decreases values.len(),
{
    if values.len() == 0 {
        0
    } else {
        total(values.drop_last()) + values.last()
    }
}

/// The quotient of `a` by a positive `b`, rounded towards zero.
pub open spec fn quotient(a: int, b: int) -> int {
    if a >= 0 {
        a / b
    } else {
        -((-a) / b)
    }
}

/// The sum of a sequence lies between its length times the least and its
/// length times the greatest value of the element type.
pub proof fn lemma_total_bounds(values: Seq<i64>)
    ensures
        values.len() * (i64::MIN as int) <= total(values) <= values.len() * (i64::MAX as int),
    decreases values.len(),
{
    if values.len() > 0 {
        lemma_total_bounds(values.drop_last());
    }
}

/// A mean that is computed from values as they arrive: the sum of the values
/// and their number, or joint weight.
#[derive(Debug, Clone, Copy)]
pub struct RunningMean {
    val: i128,
    weight: u64,
}

impl RunningMean {
    /// The sum of the values added so far.
    pub closed spec fn sum(&self) -> int {
        self.val as int
    }

    /// The number of values added so far, or their joint weight.
    pub closed spec fn count(&self) -> nat {
        self.weight as nat
    }

    /// The sum is one that values of the element type can have at this count,
    /// so that the mean is a value of the element type.
    pub open spec fn wf(&self) -> bool {
        self.count() * (i64::MIN as int) <= self.sum() <= self.count() * (i64::MAX as int)
    }

    /// The mean of the values added so far, rounded towards zero; `None` where
    /// nothing was added.
    pub open spec fn spec_mean(&self) -> Option<i64> {
        if self.count() == 0 {
            None
        } else {
            Some(quotient(self.sum(), self.count() as int) as i64)
        }
    }

    /// The running mean of the given values, each with weight 1.
    pub closed spec fn of(values: Seq<i64>) -> RunningMean {
        RunningMean { val: total(values) as i128, weight: values.len() as u64 }
    }

    /// What `of` holds, for as many values as a count can express.
    pub proof fn lemma_of(values: Seq<i64>)
        requires
            values.len() <= u64::MAX,
        ensures
            Self::of(values).sum() == total(values),
            Self::of(values).count() == values.len(),
            Self::of(values).wf(),
    {
        lemma_total_bounds(values);
    }

    /// Two running means with one sum and one count are the same.
    pub proof fn lemma_same(a: RunningMean, b: RunningMean)
        requires
            a.sum() == b.sum(),
            a.count() == b.count(),
        ensures
            a == b,
    {
    }

    /// The mean of a well-formed running mean lies in the range of the
    /// element type.
    pub proof fn lemma_mean_in_range(self)
        requires
            self.wf(),
            self.count() > 0,
        ensures
            i64::MIN <= quotient(self.sum(), self.count() as int) <= i64::MAX,
    {
        let a = self.sum();
        let b = self.count() as int;
        let lo = i64::MIN as int;
        let hi = i64::MAX as int;
        if a >= 0 {
            assert(a / b <= hi) by (nonlinear_arith)
                requires
                    0 <= a <= b * hi,
                    b > 0,
            ;
            assert(0 <= a / b) by (nonlinear_arith)
                requires
                    0 <= a,
                    b > 0,
            ;
        } else {
            assert((-a) / b <= -lo) by (nonlinear_arith)
                requires
                    0 <= -a <= b * (-lo),
                    b > 0,
            ;
            assert(0 <= (-a) / b) by (nonlinear_arith)
                requires
                    0 <= -a,
                    b > 0,
            ;
        }
    }

    /// A running mean without values.
    pub fn new() -> (r: RunningMean)
        ensures
            r == Self::of(Seq::empty()),
            r.sum() == 0,
            r.count() == 0,
            r.wf(),
    {
        RunningMean { val: 0, weight: 0 }
    }

    /// The running mean of the values of a slice.
    pub fn from_slice(s: &[i64]) -> (r: RunningMean)
        ensures
            r == Self::of(s@),
            r.sum() == total(s@),
            r.count() == s@.len(),
            r.wf(),
    {
        let mut me = RunningMean::new();
        let mut i: usize = 0;
        while i < s.len()
            invariant
                i <= s@.len(),
                me.wf(),
                me.sum() == total(s@.take(i as int)),
                me.count() == i,
            decreases s@.len() - i,
        {
            proof {
                let next = s@.take(i as int + 1);
                assert(next.drop_last() =~= s@.take(i as int));
                assert(next.last() == s@[i as int]);
            }
            me.add_value(s[i]);
            i = i + 1;
        }
        proof {
            assert(s@.take(s@.len() as int) =~= s@);
            Self::lemma_of(s@);
        }
        me
    }

    /// Adds a value with weight 1.
    pub fn add_value(&mut self, v: i64)
        requires
            old(self).wf(),
            old(self).count() < u64::MAX,
        ensures
            final(self).wf(),
            final(self).sum() == old(self).sum() + v,
            final(self).count() == old(self).count() + 1,
    {
        self.val = self.val + (v as i128);
        self.weight = self.weight + 1;
    }

    /// Adds a value with a weight of its own: the value joins the sum as it
    /// is, and the weight joins the count. The weight is at least 1, so that
    /// the mean stays within the range of the values.
    pub fn add_value_with_weight(&mut self, v: i64, w: u64)
        requires
            old(self).wf(),
            w >= 1,
            old(self).count() + w <= u64::MAX,
        ensures
            final(self).wf(),
            final(self).sum() == old(self).sum() + v,
            final(self).count() == old(self).count() + w,
    {
        assert((self.weight + w) * (i64::MIN as int) <= self.weight * (i64::MIN as int) + (
        i64::MIN as int)) by (nonlinear_arith)
            requires
                w >= 1,
        ;
        assert((self.weight + w) * (i64::MAX as int) >= self.weight * (i64::MAX as int) + (
        i64::MAX as int)) by (nonlinear_arith)
            requires
                w >= 1,
        ;
        self.val = self.val + (v as i128);
        self.weight = self.weight + w;
    }

    /// The mean of the values added so far, rounded towards zero; `None` where
    /// nothing was added.
    pub fn mean(&self) -> (m: Option<i64>)
        requires
            self.wf(),
        ensures
            m == self.spec_mean(),
    {
        if self.weight == 0 {
            None
        } else {
            proof {
                self.lemma_mean_in_range();
            }
            let q = self.val / (self.weight as i128);
            Some(q as i64)
        }
    }
}

impl Default for RunningMean {
    fn default() -> (r: RunningMean)
        ensures
            r == RunningMean::of(Seq::empty()),
            r.sum() == 0,
            r.count() == 0,
            r.wf(),
    {
        RunningMean::new()
    }
}

/// A calendar date: year, month of the year and day of the month.
#[derive(Debug, Clone, Copy)]
pub struct SoundingDate {
    pub year: i32,
    pub month: u32,
    pub day: u32,
}

/// The first eight decimal digits of `sid`, as a number; `sid` itself where
/// it has at most eight digits.
pub open spec fn leading_digits(sid: nat) -> nat
    decreases sid,
{
    if sid < 100_000_000 {
        sid
    } else {
        leading_digits(sid / 10)
    }
}

/// The date that the first eight digits of a sounding identifier spell, read
/// as four digits of the year, two of the month and two of the day.
pub open spec fn spelled_date(sid: u64) -> SoundingDate {
    let digits = leading_digits(sid as nat);
    SoundingDate {
        year: (digits / 10_000) as i32,
        month: ((digits / 100) % 100) as u32,
        day: (digits % 100) as u32,
    }
}

/// Whether `chrono` knows a day of the given year, month and day of the month.
pub uninterp spec fn calendar_day_exists(year: i32, month: u32, day: u32) -> bool;

/// `chrono::NaiveDate::from_ymd_opt`: whether it finds the calendar day. Its
/// documentation says that it returns `None` where the day does not exist in
/// the calendar, where month or day is invalid, or where the year is out of
/// range; the contract gives that answer a name and claims nothing else.
#[verifier::external_body]
fn day_exists(year: i32, month: u32, day: u32) -> (b: bool)
    ensures
        b == calendar_day_exists(year, month, day),
{
    chrono::NaiveDate::from_ymd_opt(year, month, day).is_some()
}

/// The date that the first eight digits of a sounding identifier spell,
/// whether or not there is such a day.
pub fn leading_date(sid: u64) -> (date: SoundingDate)
    ensures
        date == spelled_date(sid),
{
    let mut digits = sid;
    while digits >= 100_000_000
        invariant
            leading_digits(digits as nat) == leading_digits(sid as nat),
        decreases digits,
    {
        digits = digits / 10;
    }
    SoundingDate {
        year: (digits / 10_000) as i32,
        month: ((digits / 100) % 100) as u32,
        day: (digits % 100) as u32,
    }
}

/// The date, if it is found in the calendar.
pub open spec fn date_when(date: SoundingDate, found: bool) -> Option<SoundingDate> {
    if found {
        Some(date)
    } else {
        None
    }
}

/// The date, if it is found in the calendar.
pub fn date_if(date: SoundingDate, found: bool) -> (r: Option<SoundingDate>)
    ensures
        r == date_when(date, found),
{
    if found {
        Some(date)
    } else {
        None
    }
}

/// The date on which a sounding was taken, read from its identifier.
///
/// A sounding identifier has the form `YYYYMMDDhhmmssmf`. Its first eight
/// digits are read as a date; the result is `None` where they spell no day of
/// the calendar. The identifier has at least eight digits.
pub fn sid_to_date(sid: u64) -> (r: Option<SoundingDate>)
    requires
        sid >= 10_000_000,
    ensures
        r == date_when(
            spelled_date(sid),
            calendar_day_exists(spelled_date(sid).year, spelled_date(sid).month, spelled_date(sid).day),
        ),
{
    let date = leading_date(sid);
    let found = day_exists(date.year, date.month, date.day);
    date_if(date, found)
}

} // verus!
