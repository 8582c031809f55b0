//! The metadata container around chart bodies: lines of the form
//! `&key=value`, continued by lines without such a head, carry a title, an
//! artist, a first-note offset, and per difficulty slot a designer, a level
//! and a chart body; other keys are kept as they are.
use vstd::prelude::*;

use crate::item::{views, Diagnostic, ItemView};
use crate::lex::{is_whitespace, is_ws, push_range, string_from_chars};
use crate::parse::{chars_of, rm_comments, simai, sp_parse, strip_comments, Parsed};

verus! {

/// The start of `s[i..j]` once leading whitespace is dropped.
pub open spec fn trim_lo(s: Seq<char>, i: int, j: int) -> int
    decreases j - i,
{
    if i < j && is_ws(s[i]) {
        trim_lo(s, i + 1, j)
    } else {
        i
    }
}

/// The end of `s[i..j]` once trailing whitespace is dropped.
pub open spec fn trim_hi(s: Seq<char>, i: int, j: int) -> int
    decreases j - i,
{
    if i < j && is_ws(s[j - 1]) {
        trim_hi(s, i, j - 1)
    } else {
        j
    }
}

/// `s[i..j]` without leading or trailing whitespace.
pub open spec fn trimmed(s: Seq<char>, i: int, j: int) -> Seq<char> {
    let a = trim_lo(s, i, j);
    s.subrange(a, trim_hi(s, a, j))
}

pub open spec fn trim(s: Seq<char>) -> Seq<char> {
    trimmed(s, 0, s.len() as int)
}

fn trim_range(s: &[char], i: usize, j: usize) -> (r: (usize, usize))
    requires
        i <= j <= s@.len(),
    ensures
        r.0 as int == trim_lo(s@, i as int, j as int),
        r.1 as int == trim_hi(s@, r.0 as int, j as int),
        i <= r.0 <= r.1 <= j,
{
    let mut a = i;
    while a < j && is_whitespace(s[a])
        invariant
            i <= a <= j <= s@.len(),
            trim_lo(s@, a as int, j as int) == trim_lo(s@, i as int, j as int),
        decreases j - a,
    {
        a += 1;
    }
    let mut b = j;
    while a < b && is_whitespace(s[b - 1])
        invariant
            a <= b <= j <= s@.len(),
            trim_hi(s@, a as int, b as int) == trim_hi(s@, a as int, j as int),
        decreases b - a,
    {
        b -= 1;
    }
    (a, b)
}

fn copy_range(s: &[char], i: usize, j: usize) -> (r: Vec<char>)
    requires
        i <= j <= s@.len(),
    ensures
        r@ == s@.subrange(i as int, j as int),
{
    let mut r: Vec<char> = Vec::new();
    let mut k = i;
    while k < j
        invariant
            i <= k <= j <= s@.len(),
            r@ == s@.subrange(i as int, k as int),
        decreases j - k,
    {
        r.push(s[k]);
        k += 1;
        assert(r@ =~= s@.subrange(i as int, k as int));
    }
    r
}

/// The first newline at or after `i`, or the end of `s`.
pub open spec fn newline_end(s: Seq<char>, i: int) -> int
    decreases s.len() - i,
{
    if 0 <= i < s.len() && s[i] != '\n' {
        newline_end(s, i + 1)
    } else {
        i
    }
}

fn find_newline(s: &[char], i: usize) -> (r: usize)
    requires
        i <= s@.len(),
    ensures
        r as int == newline_end(s@, i as int),
        i <= r <= s@.len(),
{
    let mut k = i;
    while k < s.len() && s[k] != '\n'
        invariant
            i <= k <= s@.len(),
            newline_end(s@, k as int) == newline_end(s@, i as int),
        decreases s@.len() - k,
    {
        k += 1;
    }
    k
}

/// The first `=` in `s[i..j]`, or `j`.
pub open spec fn eq_end(s: Seq<char>, i: int, j: int) -> int
    decreases j - i,
{
    if i < j && s[i] != '=' {
        eq_end(s, i + 1, j)
    } else {
        i
    }
}

fn find_eq(s: &[char], i: usize, j: usize) -> (r: usize)
    requires
        i <= j <= s@.len(),
    ensures
        r as int == eq_end(s@, i as int, j as int),
        i <= r <= j,
{
    let mut k = i;
    while k < j && s[k] != '='
        invariant
            i <= k <= j <= s@.len(),
            eq_end(s@, k as int, j as int) == eq_end(s@, i as int, j as int),
        decreases j - k,
    {
        k += 1;
    }
    k
}


/// The difficulty slot, 1 to 7, named by `prefix` followed by one digit.
pub open spec fn slot_of(k: Seq<char>, prefix: Seq<char>) -> Option<int> {
    if k.len() == prefix.len() + 1 && k.take(prefix.len() as int) == prefix && '1' <= k.last()
        <= '7' {
        Some(k.last() as int - '0' as int)
    } else {
        None
    }
}

fn has_prefix(a: &[char], p: &[char]) -> (r: bool)
    ensures
        r == (a@.len() >= p@.len() && a@.take(p@.len() as int) == p@),
{
    if a.len() < p.len() {
        return false;
    }
    let mut k: usize = 0;
    while k < p.len()
        invariant
            k <= p@.len() <= a@.len(),
            a@.take(k as int) == p@.take(k as int),
        decreases p@.len() - k,
    {
        if a[k] != p[k] {
            return false;
        }
        assert(a@.take(k + 1) =~= a@.take(k as int).push(a@[k as int]));
        assert(p@.take(k + 1) =~= p@.take(k as int).push(p@[k as int]));
        k += 1;
    }
    assert(p@.take(p@.len() as int) =~= p@);
    true
}

fn slot(k: &[char], prefix: &[char]) -> (r: Option<usize>)
    ensures
        match slot_of(k@, prefix@) {
            Some(n) => r == Some(n as usize) && 1 <= n <= 7,
            None => r is None,
        },
{
    if k.len() >= 1 && k.len() - 1 == prefix.len() && has_prefix(k, prefix) {
        let c = k[k.len() - 1];
        if '1' <= c && c <= '7' {
            return Some((c as u32 - '0' as u32) as usize);
        }
    }
    None
}

fn same(a: &[char], b: &[char]) -> (r: bool)
    ensures
        r == (a@ == b@),
{
    let r = a.len() == b.len() && has_prefix(a, b);
    proof {
        if a@.len() == b@.len() {
            assert(a@.take(b@.len() as int) =~= a@);
        }
    }
    r
}

/// What the container holds, as values.
pub struct SimaiView {
    pub title: Option<Seq<char>>,
    pub artist: Option<Seq<char>>,
    /// The first-note offset, as written (trimmed); reading it as a number
    /// is left to the consumer.
    pub first: Option<Seq<char>>,
    /// The keys the container does not know, in the order first seen, each
    /// with its last value.
    pub rest: Seq<(Seq<char>, Seq<char>)>,
    /// Slots 1 to 7; slot 0 is unused.
    pub designer: Seq<Option<Seq<char>>>,
    pub level: Seq<Option<Seq<char>>>,
    /// Each parsed chart: its events and its diagnostics.
    pub chart: Seq<Option<(Seq<ItemView>, Seq<Diagnostic>)>>,
}

pub open spec fn empty_view() -> SimaiView {
    SimaiView {
        title: None,
        artist: None,
        first: None,
        rest: seq![],
        designer: Seq::new(8, |i: int| None),
        level: Seq::new(8, |i: int| None),
        chart: Seq::new(8, |i: int| None),
    }
}

/// The first index at or after `i` whose entry has key `k`, or the length.
pub open spec fn key_index(r: Seq<(Seq<char>, Seq<char>)>, k: Seq<char>, i: int) -> int
    decreases r.len() - i,
{
    if 0 <= i < r.len() && r[i].0 != k {
        key_index(r, k, i + 1)
    } else {
        i
    }
}

/// Sets the value of key `k`, appending the key where it is new.
pub open spec fn insert_rest(r: Seq<(Seq<char>, Seq<char>)>, k: Seq<char>, v: Seq<char>) -> Seq<
    (Seq<char>, Seq<char>),
> {
    let i = key_index(r, k, 0);
    if i < r.len() {
        r.update(i, (k, v))
    } else {
        r.push((k, v))
    }
}

/// The effect of one command `k` with value `v`.
pub open spec fn apply(m: SimaiView, k: Seq<char>, v: Seq<char>) -> SimaiView {
    if slot_of(k, "des_"@) is Some {
        SimaiView { designer: m.designer.update(slot_of(k, "des_"@)->0, Some(v)), ..m }
    } else if slot_of(k, "lv_"@) is Some {
        SimaiView { level: m.level.update(slot_of(k, "lv_"@)->0, Some(v)), ..m }
    } else if slot_of(k, "inote_"@) is Some {
        let body = trim(v);
        if body.len() == 0 {
            m
        } else {
            SimaiView {
                chart: m.chart.update(
                    slot_of(k, "inote_"@)->0,
                    Some(sp_parse(strip_comments(body))),
                ),
                ..m
            }
        }
    } else if k == "title"@ {
        SimaiView { title: Some(v), ..m }
    } else if k == "artist"@ {
        SimaiView { artist: Some(v), ..m }
    } else if k == "first"@ {
        let f = trim(v);
        if f.len() > 0 {
            SimaiView { first: Some(f), ..m }
        } else {
            m
        }
    } else {
        SimaiView { rest: insert_rest(m.rest, k, v), ..m }
    }
}

pub open spec fn opt_view(o: Option<String>) -> Option<Seq<char>> {
    match o {
        Some(s) => Some(s@),
        None => None,
    }
}

pub open spec fn parsed_view(o: Option<Parsed>) -> Option<(Seq<ItemView>, Seq<Diagnostic>)> {
    match o {
        Some(p) => Some((views(p.items@), p.diagnostics@)),
        None => None,
    }
}

/// The metadata of a song and its charts.
#[derive(Debug, Clone)]
pub struct Simai {
    title: Option<String>,
    artist: Option<String>,
    first: Option<String>,
    rest_cmds: Vec<(String, String)>,
    designer: Vec<Option<String>>,
    level: Vec<Option<String>>,
    chart: Vec<Option<Parsed>>,
}

impl View for Simai {
    type V = SimaiView;

    closed spec fn view(&self) -> SimaiView {
        SimaiView {
            title: opt_view(self.title),
            artist: opt_view(self.artist),
            first: opt_view(self.first),
            rest: self.rest_cmds@.map_values(|e: (String, String)| (e.0@, e.1@)),
            designer: self.designer@.map_values(|o: Option<String>| opt_view(o)),
            level: self.level@.map_values(|o: Option<String>| opt_view(o)),
            chart: self.chart@.map_values(|o: Option<Parsed>| parsed_view(o)),
        }
    }
}

impl Simai {
    pub closed spec fn wf(&self) -> bool {
        self.designer@.len() == 8 && self.level@.len() == 8 && self.chart@.len() == 8
    }

    pub fn new() -> (r: Simai)
        ensures
            r@ == empty_view(),
            r.wf(),
    {
        let mut designer: Vec<Option<String>> = Vec::new();
        let mut level: Vec<Option<String>> = Vec::new();
        let mut chart: Vec<Option<Parsed>> = Vec::new();
        let mut k: usize = 0;
        while k < 8
            invariant
                k <= 8,
                designer@.len() == k && level@.len() == k && chart@.len() == k,
                forall|i: int| 0 <= i < k ==> designer@[i] is None && level@[i] is None && chart@[i] is None,
            decreases 8 - k,
        {
            designer.push(None);
            level.push(None);
            chart.push(None);
            k += 1;
        }
        let r = Simai {
            title: None,
            artist: None,
            first: None,
            rest_cmds: Vec::new(),
            designer,
            level,
            chart,
        };
        assert(r@.designer =~= empty_view().designer);
        assert(r@.level =~= empty_view().level);
        assert(r@.chart =~= empty_view().chart);
        assert(r@.rest =~= empty_view().rest);
        r
    }

    /// Records one command: a designer, level or chart body for a slot, the
    /// title, the artist, the first-note offset, or any other key.
    fn append_cmd(&mut self, cmd: String, value: String)
        requires
            old(self).wf(),
        ensures
            final(self)@ == apply(old(self)@, cmd@, value@),
            final(self).wf(),
    {
        let k = chars_of(cmd.as_str());
        let des = chars_of("des_");
        if let Some(n) = slot(k.as_slice(), des.as_slice()) {
            self.designer.set(n, Some(value));
            assert(self@.designer =~= old(self)@.designer.update(n as int, Some(value@)));
            return;
        }
        let lv = chars_of("lv_");
        if let Some(n) = slot(k.as_slice(), lv.as_slice()) {
            self.level.set(n, Some(value));
            assert(self@.level =~= old(self)@.level.update(n as int, Some(value@)));
            return;
        }
        let inote = chars_of("inote_");
        if let Some(n) = slot(k.as_slice(), inote.as_slice()) {
            let v = chars_of(value.as_str());
            let (a, b) = trim_range(v.as_slice(), 0, v.len());
            if a == b {
                return;
            }
            let body = string_from_chars(copy_range(v.as_slice(), a, b).as_slice());
            let stripped = rm_comments(body.as_str());
            let parsed = simai(stripped.as_str());
            let ghost pv = (views(parsed.items@), parsed.diagnostics@);
            self.chart.set(n, Some(parsed));
            assert(self@.chart =~= old(self)@.chart.update(n as int, Some(pv)));
            return;
        }
        if same(k.as_slice(), chars_of("title").as_slice()) {
            self.title = Some(value);
            return;
        }
        if same(k.as_slice(), chars_of("artist").as_slice()) {
            self.artist = Some(value);
            return;
        }
        if same(k.as_slice(), chars_of("first").as_slice()) {
            let v = chars_of(value.as_str());
            let (a, b) = trim_range(v.as_slice(), 0, v.len());
            if a < b {
                self.first = Some(string_from_chars(copy_range(v.as_slice(), a, b).as_slice()));
            }
            return;
        }
        self.insert_rest(cmd, value);
    }

    fn insert_rest(&mut self, cmd: String, value: String)
        ensures
            final(self)@ == (SimaiView { rest: insert_rest(old(self)@.rest, cmd@, value@), ..old(self)@ }),
            final(self).wf() == old(self).wf(),
    {
        let ghost r0 = self@.rest;
        let n = self.rest_cmds.len();
        let mut i: usize = 0;
        while i < n && self.rest_cmds[i].0 != cmd
            invariant
                i <= n == self.rest_cmds@.len() == r0.len(),
                r0 == self@.rest,
                key_index(r0, cmd@, i as int) == key_index(r0, cmd@, 0),
            decreases n - i,
        {
            assert(self.rest_cmds@[i as int].0@ == r0[i as int].0);
            i += 1;
        }
        if i < n {
            assert(self.rest_cmds@[i as int].0@ == r0[i as int].0);
            self.rest_cmds.set(i, (cmd, value));
        } else {
            self.rest_cmds.push((cmd, value));
        }
        assert(self@.rest =~= insert_rest(r0, cmd@, value@));
        assert(self@.designer == old(self)@.designer);
    }
}


/// A line's content: without its line break, and without a carriage
/// return before that break.
pub open spec fn line_stop(s: Seq<char>, i: int, n: int) -> int {
    if n < s.len() && n > i && s[n - 1] == '\r' {
        n - 1
    } else {
        n
    }
}

/// What a line of the container says.
pub enum Line {
    /// `&key=value`, both trimmed.
    Command(Seq<char>, Seq<char>),
    /// Any other line, trimmed: it continues the current value.
    Text(Seq<char>),
}

pub open spec fn sp_line(s: Seq<char>, i: int, j: int) -> Line {
    let e = eq_end(s, i + 1, j);
    if i < j && s[i] == '&' && e < j {
        Line::Command(trimmed(s, i + 1, e), trimmed(s, e + 1, j))
    } else {
        Line::Text(trimmed(s, i, j))
    }
}

/// One line read: a command records the pending one and becomes pending;
/// text extends the pending value on a new line.
pub open spec fn step(m: SimaiView, cur: Option<(Seq<char>, Seq<char>)>, l: Line) -> (
    SimaiView,
    Option<(Seq<char>, Seq<char>)>,
) {
    match l {
        Line::Command(k, v) => (
            match cur {
                Some((ck, cv)) => apply(m, ck, cv),
                None => m,
            },
            Some((k, v)),
        ),
        Line::Text(t) => (
            m,
            match cur {
                Some((ck, cv)) => Some((ck, cv + seq!['\n'] + t)),
                None => None,
            },
        ),
    }
}

pub proof fn lemma_newline_end(s: Seq<char>, i: int)
    requires
        0 <= i <= s.len(),
    ensures
        i <= newline_end(s, i) <= s.len(),
    decreases s.len() - i,
{
    if i < s.len() && s[i] != '\n' {
        lemma_newline_end(s, i + 1);
    }
}

/// The lines from `i` on, read in order.
pub open spec fn run(s: Seq<char>, i: int, m: SimaiView, cur: Option<(Seq<char>, Seq<char>)>) -> (
    SimaiView,
    Option<(Seq<char>, Seq<char>)>,
)
    decreases s.len() - i,
{
    if 0 <= i < s.len() {
        let n = newline_end(s, i);
        proof {
            lemma_newline_end(s, i);
        }
        let (m2, c2) = step(m, cur, sp_line(s, i, line_stop(s, i, n)));
        if n < s.len() {
            run(s, n + 1, m2, c2)
        } else {
            (m2, c2)
        }
    } else {
        (m, cur)
    }
}

/// The container that a text describes.
pub open spec fn sp_container(s: Seq<char>) -> SimaiView {
    let (m, cur) = run(s, 0, empty_view(), None);
    match cur {
        Some((k, v)) => apply(m, k, v),
        None => m,
    }
}

pub open spec fn pending_view(cur: Option<(Vec<char>, Vec<char>)>) -> Option<(Seq<char>, Seq<char>)> {
    match cur {
        Some((k, v)) => Some((k@, v@)),
        None => None,
    }
}

impl Simai {
    /// Reads a container text line by line.
    pub fn from_str(s: &str) -> (r: Result<Simai, ()>)
        ensures
            r matches Ok(m) && m@ == sp_container(s@) && m.wf(),
    {
        let chars = chars_of(s);
        let c = chars.as_slice();
        let mut simai = Simai::new();
        let mut cur: Option<(Vec<char>, Vec<char>)> = None;
        let mut i: usize = 0;
        while i < c.len()
            invariant
                i <= c@.len(),
                c@ == s@,
                simai.wf(),
                run(c@, 0, empty_view(), None) == run(c@, i as int, simai@, pending_view(cur)),
            decreases c@.len() - i,
        {
            let n = find_newline(c, i);
            let j = if n < c.len() && n > i && c[n - 1] == '\r' {
                n - 1
            } else {
                n
            };
            let is_cmd = i < j && c[i] == '&';
            let e = if is_cmd {
                find_eq(c, i + 1, j)
            } else {
                j
            };
            if is_cmd && e < j {
                let (ka, kb) = trim_range(c, i + 1, e);
                let (va, vb) = trim_range(c, e + 1, j);
                if let Some((ck, cv)) = cur {
                    simai.append_cmd(
                        string_from_chars(ck.as_slice()),
                        string_from_chars(cv.as_slice()),
                    );
                }
                cur = Some((copy_range(c, ka, kb), copy_range(c, va, vb)));
            } else {
                let (ta, tb) = trim_range(c, i, j);
                cur = match cur {
                    Some((ck, cv)) => {
                        let mut v = cv;
                        v.push('\n');
                        push_range(&mut v, c, ta, tb);
                        assert(v@ =~= cv@ + seq!['\n'] + c@.subrange(ta as int, tb as int));
                        Some((ck, v))
                    },
                    None => None,
                };
            }
            i = if n < c.len() {
                n + 1
            } else {
                n
            };
        }
        if let Some((ck, cv)) = cur {
            simai.append_cmd(string_from_chars(ck.as_slice()), string_from_chars(cv.as_slice()));
        }
        Ok(simai)
    }
}


impl Simai {
    pub fn title(&self) -> (r: Option<&String>)
        ensures
            match r {
                Some(v) => self@.title == Some(v@),
                None => self@.title is None,
            },
    {
        self.title.as_ref()
    }

    pub fn artist(&self) -> (r: Option<&String>)
        ensures
            match r {
                Some(v) => self@.artist == Some(v@),
                None => self@.artist is None,
            },
    {
        self.artist.as_ref()
    }

    pub fn first(&self) -> (r: Option<&String>)
        ensures
            match r {
                Some(v) => self@.first == Some(v@),
                None => self@.first is None,
            },
    {
        self.first.as_ref()
    }

    /// The designer of difficulty slot `slot` (1 to 7).
    pub fn designer(&self, slot: usize) -> (r: Option<&String>)
        requires
            self.wf(),
            slot < 8,
        ensures
            match r {
                Some(v) => self@.designer[slot as int] == Some(v@),
                None => self@.designer[slot as int] is None,
            },
    {
        self.designer[slot].as_ref()
    }

    /// The level of difficulty slot `slot` (1 to 7).
    pub fn level(&self, slot: usize) -> (r: Option<&String>)
        requires
            self.wf(),
            slot < 8,
        ensures
            match r {
                Some(v) => self@.level[slot as int] == Some(v@),
                None => self@.level[slot as int] is None,
            },
    {
        self.level[slot].as_ref()
    }

    /// The parsed chart of difficulty slot `slot` (1 to 7).
    pub fn chart(&self, slot: usize) -> (r: Option<&Parsed>)
        requires
            self.wf(),
            slot < 8,
        ensures
            match r {
                Some(p) => self@.chart[slot as int] == Some((views(p.items@), p.diagnostics@)),
                None => self@.chart[slot as int] is None,
            },
    {
        self.chart[slot].as_ref()
    }

    /// The commands with keys the container does not know, in the order
    /// their keys were first seen, each with its last value.
    pub fn rest_cmds(&self) -> (r: &Vec<(String, String)>)
        ensures
            r@.map_values(|e: (String, String)| (e.0@, e.1@)) == self@.rest,
    {
        &self.rest_cmds
    }
}


impl std::str::FromStr for Simai {
    type Err = ();

    fn from_str(s: &str) -> Result<Simai, ()> {
        Simai::from_str(s)
    }
}

impl Default for Simai {
    fn default() -> (r: Simai)
        ensures
            r@ == empty_view(),
            r.wf(),
    {
        Simai::new()
    }
}

} // verus!
