//! The deterministic report: per-voter participation, ordered by
//! ascending participation, then ascending absolute misses, then
//! address, and rendered to text with verified formatting.

use vstd::prelude::*;

use crate::addr::{addr_lt, Address};
use crate::stats::{
    counts_bounded, lemma_stats_canonical, spec_participation, votes_per_thousand, Stats,
    VoterStats,
};
use crate::util::{append_digit, hex_char};

verus! {

/// The decimal digits of a number, most significant first.
pub open spec fn spec_dec(n: int) -> Seq<char>
    decreases n,
{
    if n < 10 {
        seq![hex_char(n as u8)]
    } else {
        spec_dec(n / 10).push(hex_char((n % 10) as u8))
    }
}

/// Appends the decimal digits of `n`.
pub fn append_dec(s: &mut String, n: u64)
    ensures
        final(s)@ == old(s)@ + spec_dec(n as int),
    decreases n,
{
    let ghost pre = s@;
    if n < 10 {
        append_digit(s, n as u8);
        proof {
            assert(s@ =~= pre + spec_dec(n as int));
        }
    } else {
        append_dec(s, n / 10);
        append_digit(s, (n % 10) as u8);
        proof {
            assert(s@ =~= pre + spec_dec(n as int));
        }
    }
}

/// A run of spaces.
pub open spec fn spec_spaces(n: int) -> Seq<char>
    decreases n,
{
    if n <= 0 {
        Seq::<char>::empty()
    } else {
        spec_spaces(n - 1).push(' ')
    }
}

/// The text, padded with spaces on the left up to the given width.
pub open spec fn spec_pad_left(s: Seq<char>, w: int) -> Seq<char> {
    if s.len() >= w {
        s
    } else {
        spec_spaces(w - s.len()) + s
    }
}

/// Appends the text padded with spaces on the left up to `width`.
fn append_pad_left(s: &mut String, text: &String, width: usize)
    ensures
        final(s)@ == old(s)@ + spec_pad_left(text@, width as int),
{
    let ghost pre = s@;
    let len: usize = text.as_str().unicode_len();
    proof {
        reveal_strlit(" ");
    }
    if len < width {
        let mut k: usize = 0;
        while k < width - len
            invariant
                k <= width - len,
                len == text@.len(),
                len < width,
                s@ == pre + spec_spaces(k as int),
            decreases width - len - k,
        {
            let ghost mid = s@;
            s.append(" ");
            proof {
                reveal_strlit(" ");
                assert(s@ =~= pre + spec_spaces(k + 1));
            }
            k = k + 1;
        }
    }
    s.append(text.as_str());
    proof {
        if text@.len() < width {
            assert(s@ =~= pre + spec_pad_left(text@, width as int));
        } else {
            assert(s@ =~= pre + spec_pad_left(text@, width as int));
        }
    }
}

/// The `i`th hexadecimal digit (most significant first) of the 40 an
/// address is written with.
pub open spec fn spec_nibble(a: Address, i: int) -> u8 {
    if i < 8 {
        ((a.hi >> (((7 - i) * 4) as u32)) & 0xF) as u8
    } else {
        ((a.lo >> (((39 - i) * 4) as u128)) & 0xF) as u8
    }
}

/// The full hexadecimal text of an address: `0x` and 40 digits.
pub open spec fn spec_addr_hex(a: Address) -> Seq<char> {
    seq!['0', 'x'] + Seq::new(40, |i: int| hex_char(spec_nibble(a, i)))
}

/// Appends the full hexadecimal text of an address.
pub fn append_addr_hex(s: &mut String, a: &Address)
    ensures
        final(s)@ == old(s)@ + spec_addr_hex(*a),
{
    let ghost pre = s@;
    proof {
        reveal_strlit("0x");
    }
    s.append("0x");
    assert(s@ =~= pre + seq!['0', 'x']);
    let mut i: usize = 0;
    while i < 40
        invariant
            i <= 40,
            s@ == pre + seq!['0', 'x'] + Seq::new(i as nat, |k: int| hex_char(spec_nibble(*a, k))),
        decreases 40 - i,
    {
        let d: u8 = if i < 8 {
            let sh: u32 = ((7 - i) as u32) * 4;
            ((a.hi >> sh) & 0xF) as u8
        } else {
            let sh: u128 = ((39 - i) as u128) * 4;
            ((a.lo >> sh) & 0xF) as u8
        };
        proof {
            let hi = a.hi;
            let lo = a.lo;
            assert(forall|sh: u32| ((hi >> sh) & 0xF) < 16) by (bit_vector);
            assert(forall|sh: u128| ((lo >> sh) & 0xF) < 16) by (bit_vector);
            assert(d == spec_nibble(*a, i as int));
        }
        append_digit(s, d);
        proof {
            assert(Seq::new((i + 1) as nat, |k: int| hex_char(spec_nibble(*a, k))) =~= Seq::new(
                i as nat,
                |k: int| hex_char(spec_nibble(*a, k)),
            ).push(hex_char(spec_nibble(*a, i as int))));
            assert(s@ =~= pre + seq!['0', 'x'] + Seq::new(
                (i + 1) as nat,
                |k: int| hex_char(spec_nibble(*a, k)),
            ));
        }
        i = i + 1;
    }
    proof {
        assert(s@ =~= pre + spec_addr_hex(*a));
    }
}

impl Address {
    /// The full hexadecimal text of this address.
    pub fn to_hex(&self) -> (r: String)
        ensures
            r@ == spec_addr_hex(*self),
    {
        let mut s = String::new();
        append_addr_hex(&mut s, self);
        s
    }
}

/// A line of the report, corresponding to one enriched voter.
pub struct DisplayLine {
    pub votes_per_thousand: u64,
    pub voted: u64,
    pub ballots: u64,
    pub voting_address: Address,
    pub mining_key: Address,
    pub name: String,
}

/// The mathematical content of a report line.
pub ghost struct DisplayLineV {
    pub votes_per_thousand: u64,
    pub voted: u64,
    pub ballots: u64,
    pub voting_address: Address,
    pub mining_key: Address,
    pub name: Seq<char>,
}

impl View for DisplayLine {
    type V = DisplayLineV;

    open spec fn view(&self) -> DisplayLineV {
        DisplayLineV {
            votes_per_thousand: self.votes_per_thousand,
            voted: self.voted,
            ballots: self.ballots,
            voting_address: self.voting_address,
            mining_key: self.mining_key,
            name: self.name@,
        }
    }
}

/// The report order: ascending participation, then ascending absolute
/// misses, then address.
pub open spec fn line_lt(a: DisplayLineV, b: DisplayLineV) -> bool {
    a.votes_per_thousand < b.votes_per_thousand || (a.votes_per_thousand == b.votes_per_thousand
        && (a.ballots - a.voted < b.ballots - b.voted || (a.ballots - a.voted == b.ballots - b.voted
        && addr_lt(a.voting_address, b.voting_address))))
}

fn line_less(a: &DisplayLine, b: &DisplayLine) -> (r: bool)
    requires
        line_wf(a@),
        line_wf(b@),
    ensures
        r == line_lt(a@, b@),
{
    if a.votes_per_thousand != b.votes_per_thousand {
        a.votes_per_thousand < b.votes_per_thousand
    } else {
        let am: u64 = a.ballots - a.voted;
        let bm: u64 = b.ballots - b.voted;
        if am != bm {
            am < bm
        } else {
            a.voting_address.less_than(&b.voting_address)
        }
    }
}

/// The report line of one voter's statistics, if enrichment resolved
/// both the mining key and the identity; otherwise the voter stays out
/// of the report.
pub open spec fn spec_line_of(addr: Address, st: VoterStats) -> Option<DisplayLineV> {
    match (st.mining_key, st.validator) {
        (Some(mk), Some(v)) => Some(
            DisplayLineV {
                votes_per_thousand: spec_participation(st.voted, st.ballots) as u64,
                voted: st.voted,
                ballots: st.ballots,
                voting_address: addr,
                mining_key: mk,
                name: v.first_name@ + seq![' '] + v.last_name@,
            },
        ),
        _ => None,
    }
}

/// The report lines of the entries, in entry order.
pub open spec fn spec_lines_of(entries: Seq<(Address, VoterStats)>) -> Seq<DisplayLineV>
    decreases entries.len(),
{
    if entries.len() == 0 {
        Seq::<DisplayLineV>::empty()
    } else {
        spec_lines_of(entries.drop_last()) + (match spec_line_of(
            entries.last().0,
            entries.last().1,
        ) {
            Some(l) => seq![l],
            None => Seq::<DisplayLineV>::empty(),
        })
    }
}

/// Inserting into a sorted run: a line goes in front of the first
/// element it does not come after.
pub open spec fn spec_insert_line(s: Seq<DisplayLineV>, l: DisplayLineV) -> Seq<DisplayLineV>
    decreases s.len(),
{
    if s.len() == 0 {
        seq![l]
    } else if line_lt(s[0], l) {
        seq![s[0]] + spec_insert_line(s.drop_first(), l)
    } else {
        seq![l] + s
    }
}

/// Insertion sort of the report lines, oldest first.
pub open spec fn spec_sort_lines(s: Seq<DisplayLineV>) -> Seq<DisplayLineV>
    decreases s.len(),
{
    if s.len() == 0 {
        Seq::<DisplayLineV>::empty()
    } else {
        spec_insert_line(spec_sort_lines(s.drop_last()), s.last())
    }
}

/// The sorted report of a statistics map: its enriched entries' lines,
/// in the report order.
pub open spec fn spec_report_lines(entries: Seq<(Address, VoterStats)>) -> Seq<DisplayLineV> {
    spec_sort_lines(spec_lines_of(entries))
}

/// Counters a report line can be rendered from.
pub open spec fn line_wf(l: DisplayLineV) -> bool {
    l.voted <= l.ballots && l.votes_per_thousand <= 1000
}

/// The view of every line of a vector.
pub open spec fn line_views(v: Seq<DisplayLine>) -> Seq<DisplayLineV> {
    v.map_values(|l: DisplayLine| l@)
}

/// Builds the report lines of the entries, in entry order: one line
/// per enriched entry, none for the others.
fn build_lines(entries: &Vec<(Address, VoterStats)>) -> (r: Vec<DisplayLine>)
    requires
        counts_bounded(entries@),
    ensures
        line_views(r@) == spec_lines_of(entries@),
        forall|k: int| 0 <= k < r@.len() ==> line_wf(#[trigger] r@[k]@),
{
    let n: usize = entries.len();
    let mut r: Vec<DisplayLine> = Vec::new();
    let mut i: usize = 0;
    proof {
        reveal_strlit(" ");
    }
    while i < n
        invariant
            i <= n,
            n == entries@.len(),
            counts_bounded(entries@),
            line_views(r@) == spec_lines_of(entries@.subrange(0, i as int)),
            forall|k: int| 0 <= k < r@.len() ==> line_wf(#[trigger] r@[k]@),
        decreases n - i,
    {
        let ghost pre = r@;
        let ghost sub1 = entries@.subrange(0, i + 1);
        let ghost sub0 = entries@.subrange(0, i as int);
        proof {
            assert(sub1.drop_last() =~= sub0);
            assert(sub1.last() == entries@[i as int]);
        }
        let e = &entries[i];
        match (&e.1.mining_key, &e.1.validator) {
            (Some(mk), Some(v)) => {
                let name = v.first_name.clone().concat(" ").concat(v.last_name.as_str());
                proof {
                    reveal_strlit(" ");
                    assert(name@ =~= v.first_name@ + seq![' '] + v.last_name@);
                }
                assert(e.1.voted <= e.1.ballots);
                let line = DisplayLine {
                    votes_per_thousand: votes_per_thousand(e.1.voted, e.1.ballots),
                    voted: e.1.voted,
                    ballots: e.1.ballots,
                    voting_address: e.0,
                    mining_key: *mk,
                    name,
                };
                r.push(line);
                proof {
                    assert(line_views(r@) =~= line_views(pre).push(line@));
                    assert(spec_line_of(entries@[i as int].0, entries@[i as int].1) == Some(
                        line@,
                    ));
                    assert(line_views(r@) =~= spec_lines_of(sub1));
                }
            },
            _ => {
                proof {
                    assert(spec_line_of(entries@[i as int].0, entries@[i as int].1) is None);
                    assert(spec_lines_of(sub1) =~= spec_lines_of(sub0));
                }
            },
        }
        i = i + 1;
    }
    proof {
        assert(entries@.subrange(0, n as int) =~= entries@);
    }
    r
}

/// Sorts the report lines into the report order.
fn sort_lines(v: Vec<DisplayLine>) -> (r: Vec<DisplayLine>)
    requires
        forall|k: int| 0 <= k < v@.len() ==> line_wf(#[trigger] v@[k]@),
    ensures
        line_views(r@) == spec_sort_lines(line_views(v@)),
        forall|k: int| 0 <= k < r@.len() ==> line_wf(#[trigger] r@[k]@),
{
    let n: usize = v.len();
    let mut r: Vec<DisplayLine> = Vec::new();
    let mut i: usize = 0;
    proof {
        assert(line_views(v@).subrange(0, 0) =~= Seq::<DisplayLineV>::empty());
    }
    while i < n
        invariant
            i <= n,
            n == v@.len(),
            forall|k: int| 0 <= k < v@.len() ==> line_wf(#[trigger] v@[k]@),
            line_views(r@) == spec_sort_lines(line_views(v@).subrange(0, i as int)),
            forall|k: int| 0 <= k < r@.len() ==> line_wf(#[trigger] r@[k]@),
        decreases n - i,
    {
        let ghost pre = line_views(r@);
        let ghost lv = line_views(v@);
        proof {
            assert(lv.subrange(0, i + 1).drop_last() =~= lv.subrange(0, i as int));
            assert(lv.subrange(0, i + 1).last() == lv[i as int]);
            assert(lv[i as int] == v@[i as int]@);
        }
        let rl: usize = r.len();
        let mut pos: usize = 0;
        while pos < rl && line_less(&r[pos], &v[i])
            invariant
                pos <= rl,
                rl == r@.len(),
                i < v@.len(),
                forall|k: int| 0 <= k < v@.len() ==> line_wf(#[trigger] v@[k]@),
                forall|k: int| 0 <= k < r@.len() ==> line_wf(#[trigger] r@[k]@),
                forall|k: int| 0 <= k < pos ==> line_lt(#[trigger] r@[k]@, v@[i as int]@),
            decreases rl - pos,
        {
            pos = pos + 1;
        }
        let line = DisplayLine {
            votes_per_thousand: v[i].votes_per_thousand,
            voted: v[i].voted,
            ballots: v[i].ballots,
            voting_address: v[i].voting_address,
            mining_key: v[i].mining_key,
            name: v[i].name.clone(),
        };
        proof {
            assert(line@ == v@[i as int]@);
            lemma_insert_line_at(pre, v@[i as int]@, pos as int);
        }
        r.insert(pos, line);
        proof {
            assert(line_views(r@) =~= pre.insert(pos as int, v@[i as int]@));
            assert(line_views(r@) =~= spec_sort_lines(line_views(v@).subrange(0, i + 1)));
        }
        i = i + 1;
    }
    proof {
        assert(line_views(v@).subrange(0, n as int) =~= line_views(v@));
    }
    r
}

/// The rendered text of one report line: the missed-over-total ratio,
/// the missed percentage, the voting address, the mining key, and the
/// display name, each column two spaces from the last.
pub open spec fn spec_line_text(l: DisplayLineV) -> Seq<char> {
    spec_pad_left(spec_dec(l.ballots - l.voted) + seq!['/'] + spec_dec(l.ballots as int), 7)
        + seq![','] + spec_pad_left(
        spec_dec((1000 - l.votes_per_thousand) / 10) + seq!['.'] + spec_dec(
            (1000 - l.votes_per_thousand) % 10,
        ),
        5,
    ) + seq!['%', ' ', ' '] + spec_addr_hex(l.voting_address) + seq![' ', ' '] + spec_addr_hex(
        l.mining_key,
    ) + seq![' ', ' '] + l.name + seq!['\n']
}

/// Renders one report line.
pub fn render_line(l: &DisplayLine) -> (r: String)
    requires
        line_wf(l@),
    ensures
        r@ == spec_line_text(l@),
{
    proof {
        reveal_strlit("/");
        reveal_strlit(",");
        reveal_strlit(".");
        reveal_strlit("%  ");
        reveal_strlit("  ");
        reveal_strlit("\n");
    }
    let mut ratio = String::new();
    append_dec(&mut ratio, l.ballots - l.voted);
    ratio.append("/");
    append_dec(&mut ratio, l.ballots);
    proof {
        assert(ratio@ =~= spec_dec(l@.ballots - l@.voted) + seq!['/'] + spec_dec(l@.ballots as int));
    }
    let t: u64 = 1000 - l.votes_per_thousand;
    let mut pct = String::new();
    append_dec(&mut pct, t / 10);
    pct.append(".");
    append_dec(&mut pct, t % 10);
    proof {
        assert(pct@ =~= spec_dec((1000 - l@.votes_per_thousand) / 10) + seq!['.'] + spec_dec(
            (1000 - l@.votes_per_thousand) % 10,
        ));
    }
    let mut out = String::new();
    append_pad_left(&mut out, &ratio, 7);
    out.append(",");
    append_pad_left(&mut out, &pct, 5);
    out.append("%  ");
    append_addr_hex(&mut out, &l.voting_address);
    out.append("  ");
    append_addr_hex(&mut out, &l.mining_key);
    out.append("  ");
    out.append(l.name.as_str());
    out.append("\n");
    proof {
        assert(out@ =~= spec_line_text(l@));
    }
    out
}

/// The table header.
pub open spec fn spec_header() -> Seq<char> {
    "        Missed  Voting key   Mining key   Name"@
}

/// The concatenated texts of the report lines, in order.
pub open spec fn spec_lines_text(lines: Seq<DisplayLineV>) -> Seq<char>
    decreases lines.len(),
{
    if lines.len() == 0 {
        Seq::<char>::empty()
    } else {
        spec_lines_text(lines.drop_last()) + spec_line_text(lines.last())
    }
}

/// The full rendered report of a statistics map: the header, then one
/// line per enriched voter, in the report order.
pub open spec fn spec_stats_text(entries: Seq<(Address, VoterStats)>) -> Seq<char> {
    spec_header() + seq!['\n'] + spec_lines_text(spec_report_lines(entries))
}

impl Stats {
    /// The report lines, sorted by ascending participation, then
    /// ascending absolute misses, then voting address.
    pub fn report_lines(&self) -> (r: Vec<DisplayLine>)
        requires
            self.inv(),
        ensures
            line_views(r@) == spec_report_lines(self@),
            lines_sorted(line_views(r@)),
            forall|k: int| 0 <= k < r@.len() ==> line_wf(#[trigger] r@[k]@),
    {
        proof {
            lemma_report_lines_sorted(spec_lines_of(self@));
        }
        sort_lines(build_lines(self.entries()))
    }

    /// The full rendered report. Identical statistics render to
    /// byte-identical text: everything here is a function of the
    /// recorded entries alone.
    pub fn to_text(&self) -> (r: String)
        requires
            self.inv(),
        ensures
            r@ == spec_stats_text(self@),
    {
        let lines = self.report_lines();
        let mut out = String::new();
        proof {
            reveal_strlit("\n");
        }
        out.append("        Missed  Voting key   Mining key   Name");
        out.append("\n");
        proof {
            assert(out@ =~= spec_header() + seq!['\n']);
        }
        let ghost lv = line_views(lines@);
        let n: usize = lines.len();
        let mut i: usize = 0;
        while i < n
            invariant
                i <= n,
                n == lines@.len(),
                lv == line_views(lines@),
                forall|k: int| 0 <= k < lines@.len() ==> line_wf(#[trigger] lines@[k]@),
                out@ == spec_header() + seq!['\n'] + spec_lines_text(lv.subrange(0, i as int)),
            decreases n - i,
        {
            proof {
                assert(lv.subrange(0, i + 1).drop_last() =~= lv.subrange(0, i as int));
                assert(lv.subrange(0, i + 1).last() == lv[i as int]);
                assert(lv[i as int] == lines@[i as int]@);
            }
            let text = render_line(&lines[i]);
            out.append(text.as_str());
            proof {
                assert(out@ =~= spec_header() + seq!['\n'] + spec_lines_text(
                    lv.subrange(0, i + 1),
                ));
            }
            i = i + 1;
        }
        proof {
            assert(lv.subrange(0, n as int) =~= lv);
        }
        out
    }
}

/// How complete a voter's participation is, for presentation: callers
/// map each level to a display style of their own.
#[derive(Clone, Copy, PartialEq, Eq, Structural, Debug)]
pub enum ParticipationLevel {
    /// At most half of the eligible ballots voted on.
    Low,
    /// More than half, at most three quarters.
    Medium,
    /// More than three quarters, but not all.
    High,
    /// Every eligible ballot voted on.
    Full,
}

/// The participation level of a per-thousand participation value.
pub fn participation_level(votes_per_thousand: u64) -> (r: ParticipationLevel)
    ensures
        votes_per_thousand <= 500 ==> r == ParticipationLevel::Low,
        500 < votes_per_thousand <= 750 ==> r == ParticipationLevel::Medium,
        750 < votes_per_thousand < 1000 ==> r == ParticipationLevel::High,
        votes_per_thousand >= 1000 ==> r == ParticipationLevel::Full,
{
    if votes_per_thousand <= 500 {
        ParticipationLevel::Low
    } else if votes_per_thousand <= 750 {
        ParticipationLevel::Medium
    } else if votes_per_thousand < 1000 {
        ParticipationLevel::High
    } else {
        ParticipationLevel::Full
    }
}

/// Law: identical input streams yield byte-identical sorted reports.
/// The replay is a chain of functions of the inputs alone, so it is
/// enough that the rendered report is a function of the recorded
/// statistics: two well-formed maps that record the same entries and
/// numbers — however they were represented or arrived at — render to
/// the same bytes.
pub proof fn lemma_report_deterministic(
    x: Seq<(Address, VoterStats)>,
    y: Seq<(Address, VoterStats)>,
)
    requires
        crate::stats::keys_sorted(x),
        crate::stats::keys_sorted(y),
        forall|a: Address| crate::stats::has_entry(x, a) <==> crate::stats::has_entry(y, a),
        forall|a: Address| crate::stats::stat_of(x, a) == crate::stats::stat_of(y, a),
    ensures
        spec_stats_text(x) == spec_stats_text(y),
{
    lemma_stats_canonical(x, y);
}

/// Sorted in the report order: no later line comes before an earlier
/// one.
pub open spec fn lines_sorted(s: Seq<DisplayLineV>) -> bool {
    forall|i: int, j: int| 0 <= i < j < s.len() ==> !line_lt(#[trigger] s[j], #[trigger] s[i])
}

/// Every member of an insertion is the inserted line or an original.
proof fn lemma_insert_line_elems(s: Seq<DisplayLineV>, l: DisplayLineV)
    ensures
        spec_insert_line(s, l).len() == s.len() + 1,
        forall|k: int|
            0 <= k < spec_insert_line(s, l).len() ==> (#[trigger] spec_insert_line(s, l)[k]) == l
                || s.contains(spec_insert_line(s, l)[k]),
    decreases s.len(),
{
    if s.len() == 0 {
    } else if line_lt(s[0], l) {
        lemma_insert_line_elems(s.drop_first(), l);
        let r = spec_insert_line(s, l);
        assert forall|k: int| 0 <= k < r.len() implies r[k] == l || s.contains(r[k]) by {
            if k == 0 {
                assert(s[0] == r[0]);
            } else {
                let rt = spec_insert_line(s.drop_first(), l);
                assert(r[k] == rt[k - 1]);
                if rt[k - 1] != l {
                    assert(s.drop_first().contains(rt[k - 1]));
                    let m = choose|m: int|
                        0 <= m < s.drop_first().len() && s.drop_first()[m] == rt[k - 1];
                    assert(s[m + 1] == rt[k - 1]);
                }
            }
        }
    } else {
    }
}

/// Insertion keeps a sorted run sorted.
proof fn lemma_insert_line_sorted(s: Seq<DisplayLineV>, l: DisplayLineV)
    requires
        lines_sorted(s),
    ensures
        lines_sorted(spec_insert_line(s, l)),
    decreases s.len(),
{
    if s.len() == 0 {
    } else if line_lt(s[0], l) {
        assert(lines_sorted(s.drop_first()));
        lemma_insert_line_sorted(s.drop_first(), l);
        lemma_insert_line_elems(s.drop_first(), l);
        let r = spec_insert_line(s, l);
        let rt = spec_insert_line(s.drop_first(), l);
        assert forall|i: int, j: int| 0 <= i < j < r.len() implies !line_lt(r[j], r[i]) by {
            if i == 0 {
                // Everything after the head is the inserted line or a
                // later original; neither comes before the head.
                assert(r[j] == rt[j - 1]);
                if rt[j - 1] == l {
                } else {
                    let m = choose|m: int|
                        0 <= m < s.drop_first().len() && s.drop_first()[m] == rt[j - 1];
                    assert(s[m + 1] == rt[j - 1]);
                    assert(!line_lt(s[m + 1], s[0]));
                }
            } else {
                assert(r[i] == rt[i - 1] && r[j] == rt[j - 1]);
            }
        }
    } else {
        let r = spec_insert_line(s, l);
        assert forall|i: int, j: int| 0 <= i < j < r.len() implies !line_lt(r[j], r[i]) by {
            if i == 0 {
                // The new head does not come after any original: the
                // old head already did not come before it, and the
                // originals do not come before the old head.
                assert(r[j] == s[j - 1]);
                assert(!line_lt(s[0], l));
                if j - 1 > 0 {
                    assert(!line_lt(s[j - 1], s[0]));
                }
            } else {
                assert(r[i] == s[i - 1] && r[j] == s[j - 1]);
            }
        }
    }
}

/// Law: the sorted report really is sorted in the report order —
/// ascending participation, then ascending absolute misses, then
/// address.
pub proof fn lemma_report_lines_sorted(s: Seq<DisplayLineV>)
    ensures
        lines_sorted(spec_sort_lines(s)),
    decreases s.len(),
{
    if s.len() > 0 {
        lemma_report_lines_sorted(s.drop_last());
        lemma_insert_line_sorted(spec_sort_lines(s.drop_last()), s.last());
    }
}

/// Inserting at the position found by a scan is the specified insert.
proof fn lemma_insert_line_at(s: Seq<DisplayLineV>, l: DisplayLineV, pos: int)
    requires
        0 <= pos <= s.len(),
        forall|k: int| 0 <= k < pos ==> line_lt(#[trigger] s[k], l),
        pos < s.len() ==> !line_lt(s[pos], l),
    ensures
        spec_insert_line(s, l) == s.insert(pos, l),
    decreases pos,
{
    if s.len() == 0 {
        assert(spec_insert_line(s, l) =~= s.insert(0, l));
    } else if pos == 0 {
        assert(spec_insert_line(s, l) =~= s.insert(0, l));
    } else {
        assert(line_lt(s[0], l));
        lemma_insert_line_at(s.drop_first(), l, pos - 1);
        assert(spec_insert_line(s, l) =~= s.insert(pos, l)) by {
            assert(spec_insert_line(s, l) == seq![s[0]] + spec_insert_line(s.drop_first(), l));
            assert(spec_insert_line(s.drop_first(), l) == s.drop_first().insert(pos - 1, l));
            assert forall|k: int| 0 <= k < s.len() + 1 implies (seq![s[0]] + s.drop_first().insert(
                pos - 1,
                l,
            ))[k] == s.insert(pos, l)[k] by {}
        }
    }
}

} // verus!
