//! The lines of the node's metrics exporter, and what is kept of its
//! counters between two scrapes.

use vstd::prelude::*;

verus! {

/// Seconds between two scrapes.
pub const UPDATE_RATE_SECS: u64 = 15;

/// Transactions per scrape interval, from the running total that the node
/// reports.
#[derive(Clone, Copy, Debug, PartialEq, Eq)]
pub struct TpsMetric {
    /// The total at the last scrape, if there was one.
    pub last_total: Option<u64>,
    /// By how much the total grew between the last two scrapes.
    pub delta: u64,
}

/// By how much a total of `total` lies above the one seen before; nothing
/// where there was none before or where the total fell, as after a restart
/// of the node.
pub open spec fn growth(last_total: Option<u64>, total: u64) -> u64 {
    match last_total {
        Some(prev) => if total >= prev {
            (total - prev) as u64
        } else {
            0
        },
        None => 0,
    }
}

impl TpsMetric {
    pub fn new() -> (m: TpsMetric)
        ensures
            m.last_total.is_none(),
            m.delta == 0,
    {
        TpsMetric { last_total: None, delta: 0 }
    }

    /// Takes in the total of a new scrape.
    pub fn update(&mut self, total: u64)
        ensures
            final(self).last_total == Some(total),
            final(self).delta == growth(old(self).last_total, total),
    {
        self.delta = match self.last_total {
            Some(prev) => if total >= prev {
                total - prev
            } else {
                0
            },
            None => 0,
        };
        self.last_total = Some(total);
    }

    /// Whole transactions per second over the last interval.
    pub fn get(&self) -> (tps: u64)
        ensures
            tps == self.delta / UPDATE_RATE_SECS,
    {
        self.delta / UPDATE_RATE_SECS
    }
}

/// The metrics computed from the scrapes.
#[derive(Clone, Copy, Debug, PartialEq, Eq)]
pub struct Metrics {
    pub tps: TpsMetric,
}

impl Metrics {
    pub fn new() -> (m: Metrics)
        ensures
            m.tps.last_total.is_none(),
            m.tps.delta == 0,
    {
        Metrics { tps: TpsMetric::new() }
    }
}

/// Whether `c` is white space, as Unicode's `White_Space` property has it.
pub open spec fn is_blank(c: char) -> bool {
    let u = c as u32;
    ||| 0x09 <= u <= 0x0d
    ||| u == 0x20
    ||| u == 0x85
    ||| u == 0xa0
    ||| u == 0x1680
    ||| 0x2000 <= u <= 0x200a
    ||| u == 0x2028
    ||| u == 0x2029
    ||| u == 0x202f
    ||| u == 0x205f
    ||| u == 0x3000
}

/// Where the text of `s` starts once leading white space is taken off: the
/// place of its first character that is not blank, or its end.
pub open spec fn trim_start(s: Seq<char>) -> int {
    choose|a: int| is_trim_start(s, a)
}

pub open spec fn is_trim_start(s: Seq<char>, a: int) -> bool {
    &&& 0 <= a <= s.len()
    &&& forall|i: int| 0 <= i < a ==> is_blank(s[i])
    &&& a < s.len() ==> !is_blank(s[a])
}

/// Where the text of `s` ends once trailing white space is taken off: just
/// after its last character that is not blank, and not before `trim_start`.
pub open spec fn trim_end(s: Seq<char>) -> int {
    choose|b: int| is_trim_end(s, b)
}

pub open spec fn is_trim_end(s: Seq<char>, b: int) -> bool {
    &&& trim_start(s) <= b <= s.len()
    &&& forall|i: int| b <= i < s.len() ==> is_blank(s[i])
    &&& trim_start(s) < b ==> !is_blank(s[b - 1])
}

/// `s` without the white space at its two ends.
pub open spec fn trimmed(s: Seq<char>) -> Seq<char> {
    s.subrange(trim_start(s), trim_end(s))
}

/// Whether `i` is the place of the first space in `t`.
pub open spec fn is_first_space(t: Seq<char>, i: int) -> bool {
    &&& 0 <= i < t.len()
    &&& t[i] == ' '
    &&& forall|j: int| 0 <= j < i ==> t[j] != ' '
}

/// The name and the value text of one line of an exporter's output, white
/// space at both ends of the line aside. An empty line, a comment, which
/// starts with `#`, and a line without a space hold none. The name ends
/// before the first space and the value text starts after it.
pub open spec fn spec_metric_line(line: Seq<char>) -> Option<(Seq<char>, Seq<char>)> {
    let t = trimmed(line);
    if t.len() == 0 || t[0] == '#' {
        None
    } else if !(exists|i: int| is_first_space(t, i)) {
        None
    } else {
        let i = choose|i: int| is_first_space(t, i);
        Some((t.subrange(0, i), t.subrange(i + 1, t.len() as int)))
    }
}

/// Whether `c` is white space.
pub fn is_blank_char(c: char) -> (r: bool)
    ensures
        r == is_blank(c),
{
    let u: u32 = c as u32;
    (0x09 <= u && u <= 0x0d) || u == 0x20 || u == 0x85 || u == 0xa0 || u == 0x1680 || (0x2000 <= u
        && u <= 0x200a) || u == 0x2028 || u == 0x2029 || u == 0x202f || u == 0x205f || u == 0x3000
}

/// Reads one line of an exporter's output as a name and the text of its
/// value.
pub fn metric_line<'a>(line: &'a str) -> (r: Option<(&'a str, &'a str)>)
    ensures
        match r {
            Some((name, value)) => spec_metric_line(line@) == Some((name@, value@)),
            None => spec_metric_line(line@).is_none(),
        },
{
    let n = line.unicode_len();
    let mut a: usize = 0;
    while a < n && is_blank_char(line.get_char(a))
        invariant
            n == line@.len(),
            a <= n,
            forall|i: int| 0 <= i < a ==> is_blank(line@[i]),
        decreases n - a,
    {
        a += 1;
    }
    proof {
        assert(is_trim_start(line@, a as int));
        let c = trim_start(line@);
        assert(is_trim_start(line@, c));
        assert(c == a) by {
            if c < a {
                assert(is_blank(line@[c]));
            }
            if a < c {
                assert(is_blank(line@[a as int]));
            }
        }
    }
    let mut b: usize = n;
    while b > a && is_blank_char(line.get_char(b - 1))
        invariant
            n == line@.len(),
            a <= b <= n,
            forall|i: int| b <= i < n ==> is_blank(line@[i]),
        decreases b,
    {
        b -= 1;
    }
    proof {
        assert(is_trim_end(line@, b as int));
        let c = trim_end(line@);
        assert(is_trim_end(line@, c));
        assert(c == b) by {
            if c < b {
                assert(is_blank(line@[b - 1]));
            }
            if b < c {
                assert(is_blank(line@[c - 1]));
            }
        }
    }
    let t = line.substring_char(a, b);
    assert(t@ == trimmed(line@));
    let m = b - a;
    if m == 0 || t.get_char(0) == '#' {
        return None;
    }
    let mut i: usize = 0;
    while i < m && t.get_char(i) != ' '
        invariant
            m == t@.len(),
            i <= m,
            forall|j: int| 0 <= j < i ==> t@[j] != ' ',
        decreases m - i,
    {
        i += 1;
    }
    if i == m {
        proof {
            assert forall|k: int| !is_first_space(t@, k) by {}
        }
        return None;
    }
    proof {
        assert(is_first_space(t@, i as int));
        let c = choose|c: int| is_first_space(t@, c);
        assert(is_first_space(t@, c));
        assert(c == i) by {
            if c < i {
                assert(t@[c] != ' ');
            }
            if i < c {
                assert(t@[i as int] != ' ');
            }
        }
    }
    Some((t.substring_char(0, i), t.substring_char(i + 1, m)))
}

impl Default for TpsMetric {
    fn default() -> (m: TpsMetric)
        ensures
            m.last_total.is_none(),
            m.delta == 0,
    {
        TpsMetric::new()
    }
}

impl Default for Metrics {
    fn default() -> (m: Metrics)
        ensures
            m.tps.last_total.is_none(),
            m.tps.delta == 0,
    {
        Metrics::new()
    }
}

} // verus!
