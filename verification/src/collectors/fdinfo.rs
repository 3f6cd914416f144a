//! Per-process GPU usage from the xe driver's DRM fdinfo files.
//!
//! An fdinfo file of an xe DRM client reads like
//!
//! ```text
//! drm-driver:     xe
//! drm-client-id:  25
//! drm-total-gtt:  377400 KiB
//! drm-cycles-rcs: 534601666
//! drm-total-cycles-rcs: 35989466732
//! ```
//!
//! [`parse_fdinfo`] turns such a file into [`FdinfoCounters`];
//! [`merge_snapshot`] keeps one snapshot per DRM client while a scan walks
//! `/proc`; [`FdinfoCollector`] compares each scan with the previous one and
//! yields per-engine cycle deltas for every client seen twice.
use std::collections::HashMap;

use vstd::prelude::*;

use crate::text::{
    ascii_bytes,
    contains, contains_bytes, equals_range, find_byte, first_index_of, first_token, has_prefix,
    is_first_byte, parse_u32_or_zero, parse_u64_or_zero, starts_with, token_end, trim,
    trim_range, u32_or_zero, u64_or_zero, copy_range,
};

verus! {

/// `drm-driver:\txe`
pub open spec fn driver_tag_tab() -> Seq<u8> {
    seq![100u8, 114, 109, 45, 100, 114, 105, 118, 101, 114, 58, 9, 120, 101]
}

/// `drm-driver: xe`
pub open spec fn driver_tag_space() -> Seq<u8> {
    seq![100u8, 114, 109, 45, 100, 114, 105, 118, 101, 114, 58, 32, 120, 101]
}

/// `drm-client-id:`
pub open spec fn client_id_key() -> Seq<u8> {
    seq![100u8, 114, 109, 45, 99, 108, 105, 101, 110, 116, 45, 105, 100, 58]
}

/// `drm-total-gtt:`
pub open spec fn gtt_key() -> Seq<u8> {
    seq![100u8, 114, 109, 45, 116, 111, 116, 97, 108, 45, 103, 116, 116, 58]
}

/// `drm-cycles-`
pub open spec fn cycles_key() -> Seq<u8> {
    seq![100u8, 114, 109, 45, 99, 121, 99, 108, 101, 115, 45]
}

/// `drm-total-cycles-`
pub open spec fn total_cycles_key() -> Seq<u8> {
    seq![100u8, 114, 109, 45, 116, 111, 116, 97, 108, 45, 99, 121, 99, 108, 101, 115, 45]
}

/// Number of engines reported per process.
pub const ENGINE_COUNT: usize = 5;

/// Name of the `k`-th engine reported per process: `rcs`, `ccs`, `bcs`,
/// `vcs`, `vecs`.
pub open spec fn engine_name(k: int) -> Seq<u8> {
    if k == 0 {
        seq![114u8, 99, 115]
    } else if k == 1 {
        seq![99u8, 99, 115]
    } else if k == 2 {
        seq![98u8, 99, 115]
    } else if k == 3 {
        seq![118u8, 99, 115]
    } else {
        seq![118u8, 101, 99, 115]
    }
}

/// The engine name of [`engine_name`] as text.
pub open spec fn engine_name_chars(k: int) -> Seq<char> {
    if k == 0 {
        seq!['r', 'c', 's']
    } else if k == 1 {
        seq!['c', 'c', 's']
    } else if k == 2 {
        seq!['b', 'c', 's']
    } else if k == 3 {
        seq!['v', 'c', 's']
    } else {
        seq!['v', 'e', 'c', 's']
    }
}

/// Name of the `k`-th engine reported per process.
pub fn fdinfo_engine_name(k: usize) -> (r: &'static str)
    requires
        k < ENGINE_COUNT,
    ensures
        r@ == engine_name_chars(k as int),
{
    proof {
        reveal_strlit("rcs");
        reveal_strlit("ccs");
        reveal_strlit("bcs");
        reveal_strlit("vcs");
        reveal_strlit("vecs");
    }
    if k == 0 {
        "rcs"
    } else if k == 1 {
        "ccs"
    } else if k == 2 {
        "bcs"
    } else if k == 3 {
        "vcs"
    } else {
        "vecs"
    }
}

fn engine_name_bytes(k: usize) -> (r: Vec<u8>)
    requires
        k < ENGINE_COUNT,
    ensures
        r@ == engine_name(k as int),
{
    let v: Vec<u8> = if k == 0 {
        vec![114u8, 99, 115]
    } else if k == 1 {
        vec![99u8, 99, 115]
    } else if k == 2 {
        vec![98u8, 99, 115]
    } else if k == 3 {
        vec![118u8, 99, 115]
    } else {
        vec![118u8, 101, 99, 115]
    };
    assert(v@ =~= engine_name(k as int));
    v
}

/// Busy and total cycles that a DRM client reports for one engine.
pub struct EngineCycles {
    pub engine: Vec<u8>,
    pub cycles: u64,
    pub total_cycles: u64,
}

impl View for EngineCycles {
    type V = (Seq<u8>, u64, u64);

    open spec fn view(&self) -> (Seq<u8>, u64, u64) {
        (self.engine@, self.cycles, self.total_cycles)
    }
}

/// What one xe fdinfo file reports.
pub struct FdinfoCounters {
    pub client_id: u32,
    pub gtt_kb: u64,
    /// One entry per engine name, in the order the names first appear: no
    /// name occurs twice ([`distinct_engine_names`], which
    /// [`parse_fdinfo`] ensures).
    pub engine_cycles: Vec<EngineCycles>,
}

impl FdinfoCounters {
    /// The counters hold one entry per engine name.
    pub open spec fn engines_distinct(&self) -> bool {
        distinct_engine_names(self@.engines)
    }
}

/// Mathematical model of [`FdinfoCounters`].
pub struct CountersView {
    pub client_id: u32,
    pub gtt_kb: u64,
    pub engines: Seq<(Seq<u8>, u64, u64)>,
}

pub open spec fn engine_views(v: Seq<EngineCycles>) -> Seq<(Seq<u8>, u64, u64)> {
    v.map_values(|e: EngineCycles| e@)
}

impl View for FdinfoCounters {
    type V = CountersView;

    open spec fn view(&self) -> CountersView {
        CountersView {
            client_id: self.client_id,
            gtt_kb: self.gtt_kb,
            engines: engine_views(self.engine_cycles@),
        }
    }
}

/// `j` is the first entry of `entries` for engine `name`.
pub open spec fn is_first_entry(entries: Seq<(Seq<u8>, u64, u64)>, name: Seq<u8>, j: int) -> bool {
    &&& 0 <= j < entries.len()
    &&& entries[j].0 == name
    &&& forall|k: int| 0 <= k < j ==> entries[k].0 != name
}

/// Index of the entry for engine `name`.
pub open spec fn entry_index(entries: Seq<(Seq<u8>, u64, u64)>, name: Seq<u8>) -> Option<int> {
    if exists|j: int| is_first_entry(entries, name, j) {
        Some(choose|j: int| is_first_entry(entries, name, j))
    } else {
        None
    }
}

/// The (busy, total) cycles recorded for engine `name`.
pub open spec fn engine_counts(entries: Seq<(Seq<u8>, u64, u64)>, name: Seq<u8>) -> Option<
    (u64, u64),
> {
    match entry_index(entries, name) {
        Some(j) => Some((entries[j].1, entries[j].2)),
        None => None,
    }
}

/// `entries` with the busy cycles of `name` set to `v` (a new entry with 0
/// total cycles when there is none).
pub open spec fn set_cycles(entries: Seq<(Seq<u8>, u64, u64)>, name: Seq<u8>, v: u64) -> Seq<
    (Seq<u8>, u64, u64),
> {
    match entry_index(entries, name) {
        Some(j) => entries.update(j, (name, v, entries[j].2)),
        None => entries.push((name, v, 0)),
    }
}

/// `entries` with the total cycles of `name` set to `v` (a new entry with 0
/// busy cycles when there is none).
pub open spec fn set_total_cycles(entries: Seq<(Seq<u8>, u64, u64)>, name: Seq<u8>, v: u64) -> Seq<
    (Seq<u8>, u64, u64),
> {
    match entry_index(entries, name) {
        Some(j) => entries.update(j, (name, entries[j].1, v)),
        None => entries.push((name, 0, v)),
    }
}

/// The counters after reading one line of an fdinfo file.
pub open spec fn apply_line(st: CountersView, raw: Seq<u8>) -> CountersView {
    let line = trim(raw);
    if has_prefix(line, client_id_key()) {
        CountersView {
            client_id: u32_or_zero(trim(line.skip(client_id_key().len() as int))),
            gtt_kb: st.gtt_kb,
            engines: st.engines,
        }
    } else if has_prefix(line, gtt_key()) {
        CountersView {
            client_id: st.client_id,
            gtt_kb: u64_or_zero(first_token(trim(line.skip(gtt_key().len() as int)))),
            engines: st.engines,
        }
    } else if has_prefix(line, cycles_key()) {
        let rest = line.skip(cycles_key().len() as int);
        match first_index_of(rest, 58) {
            Some(j) => CountersView {
                client_id: st.client_id,
                gtt_kb: st.gtt_kb,
                engines: set_cycles(st.engines, rest.take(j), u64_or_zero(trim(rest.skip(j + 1)))),
            },
            None => st,
        }
    } else if has_prefix(line, total_cycles_key()) {
        let rest = line.skip(total_cycles_key().len() as int);
        match first_index_of(rest, 58) {
            Some(j) => CountersView {
                client_id: st.client_id,
                gtt_kb: st.gtt_kb,
                engines: set_total_cycles(
                    st.engines,
                    rest.take(j),
                    u64_or_zero(trim(rest.skip(j + 1))),
                ),
            },
            None => st,
        }
    } else {
        st
    }
}

/// The counters after reading every `\n`-separated line of `b`.
pub open spec fn parse_lines(st: CountersView, b: Seq<u8>) -> CountersView
    decreases b.len(),
{
    match first_index_of(b, 10) {
        Some(i) => if 0 <= i < b.len() {
            parse_lines(apply_line(st, b.take(i)), b.skip(i + 1))
        } else {
            st
        },
        None => apply_line(st, b),
    }
}

/// Counters before any line has been read.
pub open spec fn empty_counters() -> CountersView {
    CountersView { client_id: 0, gtt_kb: 0, engines: Seq::empty() }
}

/// What an fdinfo file with content `content` reports: nothing unless it
/// belongs to the xe driver and names a nonzero client id.
pub open spec fn fdinfo_counters(content: Seq<u8>) -> Option<CountersView> {
    if !contains(content, driver_tag_tab()) && !contains(content, driver_tag_space()) {
        None
    } else {
        let st = parse_lines(empty_counters(), content);
        if st.client_id == 0 {
            None
        } else {
            Some(st)
        }
    }
}

/// No engine name occurs twice among `entries`: they hold one entry per
/// engine, as a map keyed by engine name would.
pub open spec fn distinct_engine_names(entries: Seq<(Seq<u8>, u64, u64)>) -> bool {
    forall|i: int, j: int|
        0 <= i < entries.len() && 0 <= j < entries.len() && i != j ==> entries[i].0 != entries[j].0
}

proof fn lemma_entry_has_first(entries: Seq<(Seq<u8>, u64, u64)>, name: Seq<u8>, k: int)
    requires
        0 <= k < entries.len(),
        entries[k].0 == name,
    ensures
        exists|j: int| is_first_entry(entries, name, j),
    decreases k,
{
    if exists|q: int| 0 <= q < k && entries[q].0 == name {
        let q = choose|q: int| 0 <= q < k && entries[q].0 == name;
        lemma_entry_has_first(entries, name, q);
    } else {
        assert(is_first_entry(entries, name, k));
    }
}

/// Setting the busy or total cycles of one engine keeps one entry per
/// engine.
proof fn lemma_set_keeps_names_distinct(entries: Seq<(Seq<u8>, u64, u64)>, name: Seq<u8>, v: u64)
    requires
        distinct_engine_names(entries),
    ensures
        distinct_engine_names(set_cycles(entries, name, v)),
        distinct_engine_names(set_total_cycles(entries, name, v)),
{
    match entry_index(entries, name) {
        Some(j) => {
            assert(is_first_entry(entries, name, j));
        },
        None => {
            assert forall|k: int| 0 <= k < entries.len() implies entries[k].0 != name by {
                if entries[k].0 == name {
                    lemma_entry_has_first(entries, name, k);
                }
            }
        },
    }
}

/// Reading a line keeps one entry per engine.
proof fn lemma_line_keeps_names_distinct(st: CountersView, raw: Seq<u8>)
    requires
        distinct_engine_names(st.engines),
    ensures
        distinct_engine_names(apply_line(st, raw).engines),
{
    let line = trim(raw);
    if has_prefix(line, client_id_key()) || has_prefix(line, gtt_key()) {
    } else if has_prefix(line, cycles_key()) {
        let rest = line.skip(cycles_key().len() as int);
        if let Some(j) = first_index_of(rest, 58) {
            lemma_set_keeps_names_distinct(st.engines, rest.take(j), u64_or_zero(trim(rest.skip(j + 1))));
        }
    } else if has_prefix(line, total_cycles_key()) {
        let rest = line.skip(total_cycles_key().len() as int);
        if let Some(j) = first_index_of(rest, 58) {
            lemma_set_keeps_names_distinct(st.engines, rest.take(j), u64_or_zero(trim(rest.skip(j + 1))));
        }
    }
}

/// Reading lines keeps one entry per engine.
proof fn lemma_lines_keep_names_distinct(st: CountersView, b: Seq<u8>)
    requires
        distinct_engine_names(st.engines),
    ensures
        distinct_engine_names(parse_lines(st, b).engines),
    decreases b.len(),
{
    match first_index_of(b, 10) {
        Some(i) => if 0 <= i < b.len() {
            lemma_line_keeps_names_distinct(st, b.take(i));
            lemma_lines_keep_names_distinct(apply_line(st, b.take(i)), b.skip(i + 1));
        },
        None => {
            lemma_line_keeps_names_distinct(st, b);
        },
    }
}

/// An fdinfo file yields one entry per engine: a name that several lines
/// report is one entry, as in a map keyed by engine name.
pub proof fn parsed_engine_names_distinct(content: Seq<u8>)
    ensures
        fdinfo_counters(content) matches Some(c) ==> distinct_engine_names(c.engines),
{
    lemma_lines_keep_names_distinct(empty_counters(), content);
}

proof fn lemma_first_entry_unique(entries: Seq<(Seq<u8>, u64, u64)>, name: Seq<u8>, j: int)
    requires
        is_first_entry(entries, name, j),
    ensures
        entry_index(entries, name) == Some(j),
{
    let k = choose|k: int| is_first_entry(entries, name, k);
    assert(is_first_entry(entries, name, k));
    if k < j {
        assert(entries[k].0 != name);
    }
    if j < k {
        assert(entries[j].0 != name);
    }
}

proof fn lemma_first_index_in_bounds(b: Seq<u8>, c: u8)
    ensures
        first_index_of(b, c) matches Some(i) ==> is_first_byte(b, c, i),
{
}

/// The byte patterns that the fdinfo parser looks for.
struct Keys {
    client_id: Vec<u8>,
    gtt: Vec<u8>,
    cycles: Vec<u8>,
    total_cycles: Vec<u8>,
}

impl Keys {
    spec fn wf(&self) -> bool {
        &&& self.client_id@ == client_id_key()
        &&& self.gtt@ == gtt_key()
        &&& self.cycles@ == cycles_key()
        &&& self.total_cycles@ == total_cycles_key()
    }

    fn new() -> (r: Keys)
        ensures
            r.wf(),
    {
        let client_id: Vec<u8> = vec![100u8, 114, 109, 45, 99, 108, 105, 101, 110, 116, 45, 105, 100, 58];
        let gtt: Vec<u8> = vec![100u8, 114, 109, 45, 116, 111, 116, 97, 108, 45, 103, 116, 116, 58];
        let cycles: Vec<u8> = vec![100u8, 114, 109, 45, 99, 121, 99, 108, 101, 115, 45];
        let total_cycles: Vec<u8> = vec![
            100u8,
            114,
            109,
            45,
            116,
            111,
            116,
            97,
            108,
            45,
            99,
            121,
            99,
            108,
            101,
            115,
            45,
        ];
        assert(client_id@ =~= client_id_key());
        assert(gtt@ =~= gtt_key());
        assert(cycles@ =~= cycles_key());
        assert(total_cycles@ =~= total_cycles_key());
        Keys { client_id, gtt, cycles, total_cycles }
    }
}

/// Index of the entry for the engine named by `s[lo..hi]`.
fn find_engine(entries: &Vec<EngineCycles>, s: &[u8], lo: usize, hi: usize) -> (r: Option<usize>)
    requires
        lo <= hi <= s@.len(),
    ensures
        match r {
            Some(j) => j < entries@.len() && entry_index(
                engine_views(entries@),
                s@.subrange(lo as int, hi as int),
            ) == Some(j as int),
            None => entry_index(engine_views(entries@), s@.subrange(lo as int, hi as int)) is None,
        },
{
    let ghost ev = engine_views(entries@);
    let ghost name = s@.subrange(lo as int, hi as int);
    let mut j: usize = 0;
    while j < entries.len()
        invariant
            j <= entries@.len(),
            ev == engine_views(entries@),
            name == s@.subrange(lo as int, hi as int),
            lo <= hi <= s@.len(),
            forall|k: int| 0 <= k < j ==> ev[k].0 != name,
        decreases entries@.len() - j,
    {
        if equals_range(entries[j].engine.as_slice(), s, lo, hi) {
            proof {
                assert(is_first_entry(ev, name, j as int));
                lemma_first_entry_unique(ev, name, j as int);
            }
            return Some(j);
        }
        j = j + 1;
    }
    proof {
        assert forall|k: int| !is_first_entry(ev, name, k) by {
            if 0 <= k < ev.len() {
                assert(ev[k].0 != name);
            }
        }
    }
    None
}

/// The (busy, total) cycles recorded for the engine `name`.
pub fn lookup_engine(entries: &Vec<EngineCycles>, name: &[u8]) -> (r: Option<(u64, u64)>)
    ensures
        r == engine_counts(engine_views(entries@), name@),
{
    let n = name.len();
    proof {
        assert(name@.subrange(0, n as int) =~= name@);
    }
    match find_engine(entries, name, 0, n) {
        Some(j) => Some((entries[j].cycles, entries[j].total_cycles)),
        None => None,
    }
}

/// Record for engine `s[lo..hi]` busy cycles `v` (`total` false) or total
/// cycles `v` (`total` true).
fn set_engine_value(
    entries: &mut Vec<EngineCycles>,
    s: &[u8],
    lo: usize,
    hi: usize,
    v: u64,
    total: bool,
)
    requires
        lo <= hi <= s@.len(),
    ensures
        engine_views(final(entries)@) == if total {
            set_total_cycles(engine_views(old(entries)@), s@.subrange(lo as int, hi as int), v)
        } else {
            set_cycles(engine_views(old(entries)@), s@.subrange(lo as int, hi as int), v)
        },
{
    let ghost name = s@.subrange(lo as int, hi as int);
    let ghost old_ev = engine_views(entries@);
    match find_engine(entries, s, lo, hi) {
        Some(j) => {
            let cycles = if total {
                entries[j].cycles
            } else {
                v
            };
            let total_cycles = if total {
                v
            } else {
                entries[j].total_cycles
            };
            let e = EngineCycles { engine: copy_range(s, lo, hi), cycles, total_cycles };
            entries.set(j, e);
            proof {
                assert(engine_views(entries@) =~= old_ev.update(
                    j as int,
                    (name, cycles, total_cycles),
                ));
            }
        },
        None => {
            let e = if total {
                EngineCycles { engine: copy_range(s, lo, hi), cycles: 0, total_cycles: v }
            } else {
                EngineCycles { engine: copy_range(s, lo, hi), cycles: v, total_cycles: 0 }
            };
            entries.push(e);
            proof {
                assert(engine_views(entries@) =~= old_ev.push(e@));
            }
        },
    }
}

/// Read one line `s[lo..hi]` of an fdinfo file into `st`.
fn read_line(st: &mut FdinfoCounters, keys: &Keys, s: &[u8], lo: usize, hi: usize)
    requires
        lo <= hi <= s@.len(),
        keys.wf(),
    ensures
        final(st)@ == apply_line(old(st)@, s@.subrange(lo as int, hi as int)),
{
    let (a, b) = trim_range(s, lo, hi);
    let ghost line = s@.subrange(a as int, b as int);
    if starts_with(s, a, b, keys.client_id.as_slice()) {
        let k = keys.client_id.len();
        let (va, vb) = trim_range(s, a + k, b);
        proof {
            assert(line.skip(k as int) =~= s@.subrange(a + k, b as int));
        }
        st.client_id = parse_u32_or_zero(s, va, vb);
    } else if starts_with(s, a, b, keys.gtt.as_slice()) {
        let k = keys.gtt.len();
        let (va, vb) = trim_range(s, a + k, b);
        let e = token_end(s, va, vb);
        proof {
            assert(line.skip(k as int) =~= s@.subrange(a + k, b as int));
        }
        st.gtt_kb = parse_u64_or_zero(s, va, e);
    } else if starts_with(s, a, b, keys.cycles.as_slice()) {
        let k = keys.cycles.len();
        let ghost rest = line.skip(k as int);
        proof {
            assert(rest =~= s@.subrange(a + k, b as int));
        }
        match find_byte(s, a + k, b, 58) {
            Some(c) => {
                let (va, vb) = trim_range(s, c + 1, b);
                let v = parse_u64_or_zero(s, va, vb);
                proof {
                    assert(rest.take(c - (a + k)) =~= s@.subrange(a + k, c as int));
                    assert(rest.skip(c - (a + k) + 1) =~= s@.subrange(c + 1, b as int));
                }
                set_engine_value(&mut st.engine_cycles, s, a + k, c, v, false);
            },
            None => {},
        }
    } else if starts_with(s, a, b, keys.total_cycles.as_slice()) {
        let k = keys.total_cycles.len();
        let ghost rest = line.skip(k as int);
        proof {
            assert(rest =~= s@.subrange(a + k, b as int));
        }
        match find_byte(s, a + k, b, 58) {
            Some(c) => {
                let (va, vb) = trim_range(s, c + 1, b);
                let v = parse_u64_or_zero(s, va, vb);
                proof {
                    assert(rest.take(c - (a + k)) =~= s@.subrange(a + k, c as int));
                    assert(rest.skip(c - (a + k) + 1) =~= s@.subrange(c + 1, b as int));
                }
                set_engine_value(&mut st.engine_cycles, s, a + k, c, v, true);
            },
            None => {},
        }
    }
}

/// Parse the content of an fdinfo file. `None` unless the file belongs to
/// the xe driver (it holds `drm-driver:\txe` or `drm-driver: xe`) and
/// reports a nonzero `drm-client-id`. Every line is trimmed; the last
/// `drm-client-id:` and `drm-total-gtt:` lines win, values that do not parse
/// count as 0, and `drm-cycles-<engine>:` / `drm-total-cycles-<engine>:`
/// fill the busy and total cycles of each engine.
pub fn parse_fdinfo(content: &[u8]) -> (r: Option<FdinfoCounters>)
    ensures
        match r {
            Some(c) => fdinfo_counters(content@) == Some(c@) && c.engines_distinct(),
            None => fdinfo_counters(content@) is None,
        },
{
    proof {
        parsed_engine_names_distinct(content@);
    }
    let tab: Vec<u8> = vec![100u8, 114, 109, 45, 100, 114, 105, 118, 101, 114, 58, 9, 120, 101];
    let space: Vec<u8> = vec![100u8, 114, 109, 45, 100, 114, 105, 118, 101, 114, 58, 32, 120, 101];
    assert(tab@ =~= driver_tag_tab());
    assert(space@ =~= driver_tag_space());
    if !contains_bytes(content, tab.as_slice()) && !contains_bytes(content, space.as_slice()) {
        return None;
    }
    let keys = Keys::new();
    let mut st = FdinfoCounters { client_id: 0, gtt_kb: 0, engine_cycles: Vec::new() };
    let n = content.len();
    let mut pos: usize = 0;
    assert(st@.engines =~= Seq::<(Seq<u8>, u64, u64)>::empty());
    assert(content@.subrange(0, n as int) =~= content@);
    loop
        invariant_except_break
            parse_lines(st@, content@.subrange(pos as int, n as int)) == parse_lines(
                empty_counters(),
                content@,
            ),
        invariant
            pos <= n,
            n == content@.len(),
            keys.wf(),
        ensures
            st@ == parse_lines(empty_counters(), content@),
        decreases n - pos,
    {
        let ghost rest = content@.subrange(pos as int, n as int);
        match find_byte(content, pos, n, 10) {
            Some(i) => {
                proof {
                    lemma_first_index_in_bounds(rest, 10);
                    assert(rest.take(i - pos) =~= content@.subrange(pos as int, i as int));
                    assert(rest.skip(i - pos + 1) =~= content@.subrange(i + 1, n as int));
                }
                read_line(&mut st, &keys, content, pos, i);
                pos = i + 1;
            },
            None => {
                read_line(&mut st, &keys, content, pos, n);
                break ;
            },
        }
    }
    if st.client_id == 0 {
        None
    } else {
        Some(st)
    }
}


/// One DRM client of one process, as a scan of `/proc` finds it.
pub struct ClientSnapshot {
    pub pid: u32,
    /// The process name from `/proc/<pid>/comm`, trimmed.
    pub command: String,
    pub counters: FdinfoCounters,
}

/// Mathematical model of [`ClientSnapshot`].
pub struct SnapshotView {
    pub pid: u32,
    pub command: Seq<char>,
    pub counters: CountersView,
}

impl View for ClientSnapshot {
    type V = SnapshotView;

    open spec fn view(&self) -> SnapshotView {
        SnapshotView { pid: self.pid, command: self.command@, counters: self.counters@ }
    }
}

pub open spec fn snapshot_views(v: Seq<ClientSnapshot>) -> Seq<SnapshotView> {
    v.map_values(|s: ClientSnapshot| s@)
}

/// `j` is the first snapshot of `list` for DRM client `id`.
pub open spec fn is_first_client(list: Seq<SnapshotView>, id: u32, j: int) -> bool {
    &&& 0 <= j < list.len()
    &&& list[j].counters.client_id == id
    &&& forall|k: int| 0 <= k < j ==> list[k].counters.client_id != id
}

/// Index of the first snapshot of `list` for DRM client `id`.
pub open spec fn first_client_index(list: Seq<SnapshotView>, id: u32) -> Option<int> {
    if exists|j: int| is_first_client(list, id, j) {
        Some(choose|j: int| is_first_client(list, id, j))
    } else {
        None
    }
}

/// `list` after a scan met `snap`: a client seen before keeps the snapshot
/// with the larger GTT size (the earlier one on a tie); a new client is
/// appended.
pub open spec fn merge_view(list: Seq<SnapshotView>, snap: SnapshotView) -> Seq<SnapshotView> {
    match first_client_index(list, snap.counters.client_id) {
        Some(j) => if snap.counters.gtt_kb > list[j].counters.gtt_kb {
            list.update(j, snap)
        } else {
            list
        },
        None => list.push(snap),
    }
}

/// No two snapshots of `list` belong to the same DRM client.
pub open spec fn distinct_clients(list: Seq<SnapshotView>) -> bool {
    forall|i: int, j: int|
        0 <= i < list.len() && 0 <= j < list.len() && i != j ==> list[i].counters.client_id
            != list[j].counters.client_id
}

proof fn lemma_client_has_first(list: Seq<SnapshotView>, id: u32, k: int)
    requires
        0 <= k < list.len(),
        list[k].counters.client_id == id,
    ensures
        exists|j: int| is_first_client(list, id, j),
    decreases k,
{
    if exists|q: int| 0 <= q < k && list[q].counters.client_id == id {
        let q = choose|q: int| 0 <= q < k && list[q].counters.client_id == id;
        lemma_client_has_first(list, id, q);
    } else {
        assert(is_first_client(list, id, k));
    }
}

proof fn lemma_first_client_unique(list: Seq<SnapshotView>, id: u32, j: int)
    requires
        is_first_client(list, id, j),
    ensures
        first_client_index(list, id) == Some(j),
{
    let k = choose|k: int| is_first_client(list, id, k);
    assert(is_first_client(list, id, k));
    if k < j {
        assert(list[k].counters.client_id != id);
    }
    if j < k {
        assert(list[j].counters.client_id != id);
    }
}

/// Add the snapshot `snap` found by a scan to `list`, keeping one snapshot
/// per DRM client: when `list` already holds the client, the snapshot with
/// more GTT memory stays.
pub fn merge_snapshot(list: &mut Vec<ClientSnapshot>, snap: ClientSnapshot)
    ensures
        snapshot_views(final(list)@) == merge_view(snapshot_views(old(list)@), snap@),
{
    let ghost old_v = snapshot_views(list@);
    let id = snap.counters.client_id;
    let mut j: usize = 0;
    while j < list.len()
        invariant
            j <= list@.len(),
            old_v == snapshot_views(list@),
            old_v == snapshot_views(old(list)@),
            id == snap@.counters.client_id,
            forall|k: int| 0 <= k < j ==> old_v[k].counters.client_id != id,
        decreases list@.len() - j,
    {
        if list[j].counters.client_id == id {
            assert(old_v[j as int] == list@[j as int]@);
            proof {
                assert(is_first_client(old_v, id, j as int));
                lemma_first_client_unique(old_v, id, j as int);
            }
            if snap.counters.gtt_kb > list[j].counters.gtt_kb {
                list.set(j, snap);
                proof {
                    assert(snapshot_views(list@) =~= old_v.update(j as int, snap@));
                }
            }
            return;
        }
        j = j + 1;
    }
    proof {
        assert forall|k: int| !is_first_client(old_v, id, k) by {
            if 0 <= k < old_v.len() {
                assert(old_v[k].counters.client_id != id);
            }
        }
    }
    let ghost sv = snap@;
    list.push(snap);
    proof {
        assert(snapshot_views(list@) =~= old_v.push(sv));
    }
}

/// The snapshots that a whole scan keeps: each found snapshot merged, in
/// the order the scan found them, into an initially empty list.
pub open spec fn merged_scan(found: Seq<SnapshotView>) -> Seq<SnapshotView>
    decreases found.len(),
{
    if found.len() == 0 {
        Seq::empty()
    } else {
        merge_view(merged_scan(found.drop_last()), found.last())
    }
}

/// Merge every snapshot that a scan found, in order, keeping one snapshot
/// per DRM client: the one with the most GTT memory (the earliest on a
/// tie).
pub fn merge_scan(found: Vec<ClientSnapshot>) -> (r: Vec<ClientSnapshot>)
    ensures
        snapshot_views(r@) == merged_scan(snapshot_views(found@)),
{
    let ghost fv = snapshot_views(found@);
    let mut list: Vec<ClientSnapshot> = Vec::new();
    proof {
        assert(snapshot_views(list@) =~= Seq::<SnapshotView>::empty());
    }
    for snap in it: found.into_iter()
        invariant
            it.seq() == found@,
            fv == snapshot_views(found@),
            snapshot_views(list@) == merged_scan(fv.take(it.index() as int)),
    {
        proof {
            assert(fv.take(it.index() + 1).drop_last() =~= fv.take(it.index() as int));
            assert(fv.take(it.index() + 1).last() == snap@);
        }
        merge_snapshot(&mut list, snap);
    }
    proof {
        assert(fv.take(fv.len() as int) =~= fv);
    }
    list
}

/// Merging a snapshot into a list that holds each DRM client once leaves a
/// list that still holds each client once.
pub proof fn merge_keeps_clients_distinct(list: Seq<SnapshotView>, snap: SnapshotView)
    requires
        distinct_clients(list),
    ensures
        distinct_clients(merge_view(list, snap)),
{
    let id = snap.counters.client_id;
    match first_client_index(list, id) {
        Some(j) => {
            assert(is_first_client(list, id, j));
        },
        None => {
            let r = list.push(snap);
            assert forall|i: int, k: int|
                0 <= i < r.len() && 0 <= k < r.len() && i != k implies r[i].counters.client_id
                != r[k].counters.client_id by {
                if i == list.len() as int && list[k].counters.client_id == id {
                    lemma_client_has_first(list, id, k);
                }
                if k == list.len() as int && list[i].counters.client_id == id {
                    lemma_client_has_first(list, id, i);
                }
            }
        },
    }
}


/// `a - b`, or 0 when `b` is larger.
pub open spec fn sat_sub(a: u64, b: u64) -> u64 {
    if a >= b {
        (a - b) as u64
    } else {
        0
    }
}

/// (busy, total) cycles that engine `name` spent between the `prev` and
/// `cur` samples of a client; (0, 0) when either sample lacks the engine.
pub open spec fn engine_delta(
    cur: Seq<(Seq<u8>, u64, u64)>,
    prev: Seq<(Seq<u8>, u64, u64)>,
    name: Seq<u8>,
) -> (u64, u64) {
    match (engine_counts(cur, name), engine_counts(prev, name)) {
        (Some(c), Some(p)) => (sat_sub(c.0, p.0), sat_sub(c.1, p.1)),
        _ => (0, 0),
    }
}

/// The deltas of the reported engines, in [`engine_name`] order.
pub open spec fn engine_deltas(cur: Seq<(Seq<u8>, u64, u64)>, prev: Seq<(Seq<u8>, u64, u64)>) -> Seq<
    (u64, u64),
> {
    Seq::new(ENGINE_COUNT as nat, |k: int| engine_delta(cur, prev, engine_name(k)))
}

/// GPU usage of one DRM client between two scans.
pub struct ProcessCycles {
    pub pid: u32,
    pub command: String,
    pub client_id: u32,
    pub gtt_kb: u64,
    /// (busy, total) engine cycles spent since the previous scan, one pair
    /// per engine in [`fdinfo_engine_name`] order.
    pub engines: Vec<(u64, u64)>,
}

/// Mathematical model of [`ProcessCycles`].
pub struct ProcessCyclesView {
    pub pid: u32,
    pub command: Seq<char>,
    pub client_id: u32,
    pub gtt_kb: u64,
    pub engines: Seq<(u64, u64)>,
}

impl View for ProcessCycles {
    type V = ProcessCyclesView;

    open spec fn view(&self) -> ProcessCyclesView {
        ProcessCyclesView {
            pid: self.pid,
            command: self.command@,
            client_id: self.client_id,
            gtt_kb: self.gtt_kb,
            engines: self.engines@,
        }
    }
}

pub open spec fn usage_views(v: Seq<ProcessCycles>) -> Seq<ProcessCyclesView> {
    v.map_values(|p: ProcessCycles| p@)
}

/// The snapshots of a scan keyed by DRM client id; of two snapshots of one
/// client, the later one stands, as when the scan is inserted into a map
/// in order.
pub open spec fn scan_map(snaps: Seq<SnapshotView>) -> Map<u32, SnapshotView>
    decreases snaps.len(),
{
    if snaps.len() == 0 {
        Map::empty()
    } else {
        scan_map(snaps.drop_last()).insert(snaps.last().counters.client_id, snaps.last())
    }
}

/// The usage row of snapshot `s` against the previous scan `prev`, which
/// saw its client: the snapshot's process, client and GTT size, and the
/// cycles each engine spent since the previous snapshot of the client.
pub open spec fn usage_row(prev: Map<u32, SnapshotView>, s: SnapshotView) -> ProcessCyclesView {
    ProcessCyclesView {
        pid: s.pid,
        command: s.command,
        client_id: s.counters.client_id,
        gtt_kb: s.counters.gtt_kb,
        engines: engine_deltas(s.counters.engines, prev[s.counters.client_id].counters.engines),
    }
}

/// The usage rows of a scan `snaps` against the previous scan `prev`, keyed
/// by client id: one row per snapshot whose client the previous scan saw,
/// in scan order.
pub open spec fn usage_rows(prev: Map<u32, SnapshotView>, snaps: Seq<SnapshotView>) -> Seq<
    ProcessCyclesView,
>
    decreases snaps.len(),
{
    if snaps.len() == 0 {
        Seq::empty()
    } else {
        let s = snaps.last();
        let rest = usage_rows(prev, snaps.drop_last());
        if prev.contains_key(s.counters.client_id) {
            rest.push(usage_row(prev, s))
        } else {
            rest
        }
    }
}

/// Cycle deltas of each reported engine between two samples of a client.
fn deltas_between(cur: &FdinfoCounters, prev: &FdinfoCounters) -> (r: Vec<(u64, u64)>)
    ensures
        r@ == engine_deltas(cur@.engines, prev@.engines),
{
    let mut r: Vec<(u64, u64)> = Vec::new();
    let mut k: usize = 0;
    while k < ENGINE_COUNT
        invariant
            k <= ENGINE_COUNT,
            r@.len() == k,
            forall|m: int| 0 <= m < k ==> r@[m] == engine_delta(cur@.engines, prev@.engines, engine_name(m)),
        decreases ENGINE_COUNT - k,
    {
        let name = engine_name_bytes(k);
        let d = match (
            lookup_engine(&cur.engine_cycles, name.as_slice()),
            lookup_engine(&prev.engine_cycles, name.as_slice()),
        ) {
            (Some(c), Some(p)) => (c.0.saturating_sub(p.0), c.1.saturating_sub(p.1)),
            _ => (0, 0),
        };
        r.push(d);
        k = k + 1;
    }
    assert(r@ =~= engine_deltas(cur@.engines, prev@.engines));
    r
}

/// Per-process GPU usage from DRM fdinfo, one scan of `/proc` every
/// `scan_interval` ticks.
pub struct FdinfoCollector {
    /// Previous snapshot keyed by drm-client-id.
    prev: HashMap<u32, ClientSnapshot>,
    tick_counter: u64,
    /// Only scan every Nth tick to reduce overhead.
    scan_interval: u64,
    /// The rows of the last scan.
    cached: Vec<ProcessCycles>,
}

impl FdinfoCollector {
    #[verifier::type_invariant]
    spec fn inv(self) -> bool {
        self.scan_interval >= 1
    }

    /// The previous scan, keyed by client id.
    pub closed spec fn previous(self) -> Map<u32, SnapshotView> {
        Map::new(|id: u32| self.prev@.contains_key(id), |id: u32| self.prev@[id]@)
    }

    /// Number of ticks so far.
    pub closed spec fn ticks(self) -> u64 {
        self.tick_counter
    }

    /// A scan happens every this many ticks.
    pub closed spec fn interval(self) -> u64 {
        self.scan_interval
    }

    /// The rows of the last scan.
    pub closed spec fn rows(self) -> Seq<ProcessCyclesView> {
        usage_views(self.cached@)
    }

    /// A collector that scans every `scan_interval` ticks (at least every
    /// tick).
    pub fn new(scan_interval: u64) -> (r: Self)
        ensures
            r.interval() == if scan_interval >= 1 {
                scan_interval
            } else {
                1
            },
            r.ticks() == 0,
            r.previous() == Map::<u32, SnapshotView>::empty(),
            r.rows().len() == 0,
    {
        let r = FdinfoCollector {
            prev: HashMap::new(),
            tick_counter: 0,
            scan_interval: if scan_interval >= 1 {
                scan_interval
            } else {
                1
            },
            cached: Vec::new(),
        };
        assert(r.previous() =~= Map::<u32, SnapshotView>::empty());
        r
    }

    /// Count a tick and say whether this tick scans `/proc`: exactly when
    /// the tick count is a multiple of the interval. On the other ticks the
    /// rows of the latest scan stand (none before the first scan).
    pub fn needs_scan(&mut self) -> (r: bool)
        requires
            old(self).ticks() < u64::MAX,
        ensures
            final(self).ticks() == old(self).ticks() + 1,
            final(self).interval() == old(self).interval(),
            final(self).previous() == old(self).previous(),
            final(self).rows() == old(self).rows(),
            r == (final(self).ticks() % final(self).interval() == 0),
    {
        proof {
            use_type_invariant(&*self);
        }
        self.tick_counter = self.tick_counter + 1;
        self.tick_counter % self.scan_interval == 0
    }

    /// Number of ticks so far.
    pub fn tick_count(&self) -> (r: u64)
        ensures
            r == self.ticks(),
    {
        self.tick_counter
    }

    /// The rows of the last scan.
    pub fn cached(&self) -> (r: &Vec<ProcessCycles>)
        ensures
            usage_views(r@) == self.rows(),
    {
        &self.cached
    }

    /// Take the result of a scan: the rows become the usage of every client
    /// that the previous scan also saw, and the scan, keyed by client id,
    /// becomes the previous one.
    pub fn update(&mut self, snapshots: Vec<ClientSnapshot>)
        ensures
            final(self).rows() == usage_rows(old(self).previous(), snapshot_views(snapshots@)),
            final(self).previous() == scan_map(snapshot_views(snapshots@)),
            final(self).ticks() == old(self).ticks(),
            final(self).interval() == old(self).interval(),
    {
        broadcast use vstd::std_specs::hash::group_hash_axioms;

        proof {
            use_type_invariant(&*self);
        }
        let ghost pv = self.previous();
        let ghost sv = snapshot_views(snapshots@);
        let mut rows: Vec<ProcessCycles> = Vec::new();
        let mut next: HashMap<u32, ClientSnapshot> = HashMap::new();
        let ghost mut seen: Seq<SnapshotView> = Seq::empty();
        for snap in it: snapshots.into_iter()
            invariant
                it.seq() == snapshots@,
                sv == snapshot_views(snapshots@),
                pv == self.previous(),
                seen == sv.take(it.index() as int),
                usage_views(rows@) == usage_rows(pv, seen),
                Map::new(|id: u32| next@.contains_key(id), |id: u32| next@[id]@) == scan_map(seen),
        {
            let id = snap.counters.client_id;
            proof {
                assert(sv.take(it.index() + 1).drop_last() =~= seen);
                assert(sv.take(it.index() + 1).last() == snap@);
            }
            match self.prev.get(&id) {
                Some(p) => {
                    let engines = deltas_between(&snap.counters, &p.counters);
                    let row = ProcessCycles {
                        pid: snap.pid,
                        command: snap.command.clone(),
                        client_id: id,
                        gtt_kb: snap.counters.gtt_kb,
                        engines,
                    };
                    let ghost rv = row@;
                    let ghost old_rows = rows@;
                    rows.push(row);
                    proof {
                        assert(pv.contains_key(id) && pv[id] == p@);
                        assert(usage_views(rows@) =~= usage_views(old_rows).push(rv));
                    }
                },
                None => {
                    proof {
                        assert(!pv.contains_key(id));
                    }
                },
            }
            let ghost old_next = next@;
            let ghost sview = snap@;
            next.insert(id, snap);
            proof {
                seen = sv.take(it.index() + 1);
                assert(Map::new(|k: u32| next@.contains_key(k), |k: u32| next@[k]@) =~= Map::new(
                    |k: u32| old_next.contains_key(k),
                    |k: u32| old_next[k]@,
                ).insert(id, sview));
            }
        }
        proof {
            assert(seen =~= sv);
        }
        self.prev = next;
        self.cached = rows;
    }
}

/// A client whose counters did not change between two scans shows no
/// usage on any engine.
pub proof fn unchanged_counters_show_no_usage(engines: Seq<(Seq<u8>, u64, u64)>)
    ensures
        engine_deltas(engines, engines) == Seq::new(ENGINE_COUNT as nat, |k: int| (0u64, 0u64)),
{
    assert(engine_deltas(engines, engines) =~= Seq::new(ENGINE_COUNT as nat, |k: int| (0u64, 0u64)));
}

/// After a scan meets a snapshot, the list holds that snapshot's client,
/// with the larger of the two GTT sizes.
pub proof fn merge_keeps_largest_gtt(list: Seq<SnapshotView>, snap: SnapshotView)
    ensures
        ({
            let r = merge_view(list, snap);
            let id = snap.counters.client_id;
            match first_client_index(r, id) {
                Some(j) => {
                    &&& r[j].counters.gtt_kb >= snap.counters.gtt_kb
                    &&& first_client_index(list, id) matches Some(k) ==> r[j].counters.gtt_kb
                        >= list[k].counters.gtt_kb
                },
                None => false,
            }
        }),
{
    let id = snap.counters.client_id;
    let r = merge_view(list, snap);
    match first_client_index(list, id) {
        Some(k) => {
            assert(is_first_client(list, id, k));
            assert(is_first_client(r, id, k));
            lemma_first_client_unique(r, id, k);
        },
        None => {
            assert forall|q: int| 0 <= q < list.len() implies list[q].counters.client_id != id by {
                if list[q].counters.client_id == id {
                    lemma_client_has_first(list, id, q);
                }
            }
            assert(is_first_client(r, id, list.len() as int));
            lemma_first_client_unique(r, id, list.len() as int);
        },
    }
}


/// The first scan yields no rows: usage needs two samples of a client.
pub proof fn first_scan_has_no_rows(snaps: Seq<SnapshotView>)
    ensures
        usage_rows(Map::empty(), snaps).len() == 0,
    decreases snaps.len(),
{
    if snaps.len() > 0 {
        first_scan_has_no_rows(snaps.drop_last());
    }
}

/// A scan yields at most one row per snapshot.
pub proof fn rows_at_most_snapshots(prev: Map<u32, SnapshotView>, snaps: Seq<SnapshotView>)
    ensures
        usage_rows(prev, snaps).len() <= snaps.len(),
    decreases snaps.len(),
{
    if snaps.len() > 0 {
        rows_at_most_snapshots(prev, snaps.drop_last());
    }
}

/// `row` is the usage row of a snapshot of `snaps` whose client the
/// previous scan `prev` saw.
pub open spec fn row_of_returning_client(
    prev: Map<u32, SnapshotView>,
    snaps: Seq<SnapshotView>,
    row: ProcessCyclesView,
) -> bool {
    exists|j: int|
        0 <= j < snaps.len() && prev.contains_key(snaps[j].counters.client_id) && row
            == usage_row(prev, #[trigger] snaps[j])
}

/// The clients with a row are exactly those that both the previous scan
/// and this scan saw: every row is the usage row of a snapshot of this scan
/// whose client the previous scan saw, and every such snapshot has its
/// row.
pub proof fn rows_are_clients_of_both_scans(prev: Map<u32, SnapshotView>, snaps: Seq<SnapshotView>)
    ensures
        forall|r: int|
            0 <= r < usage_rows(prev, snaps).len() ==> row_of_returning_client(
                prev,
                snaps,
                #[trigger] usage_rows(prev, snaps)[r],
            ),
        forall|j: int|
            0 <= j < snaps.len() && prev.contains_key(#[trigger] snaps[j].counters.client_id) ==> exists|
                r: int,
            |
                0 <= r < usage_rows(prev, snaps).len() && #[trigger] usage_rows(prev, snaps)[r]
                    == usage_row(prev, snaps[j]),
    decreases snaps.len(),
{
    if snaps.len() > 0 {
        let init = snaps.drop_last();
        rows_are_clients_of_both_scans(prev, init);
        let rows = usage_rows(prev, snaps);
        let rest = usage_rows(prev, init);
        assert forall|r: int| 0 <= r < rows.len() implies row_of_returning_client(
            prev,
            snaps,
            #[trigger] rows[r],
        ) by {
            if r < rest.len() {
                assert(rows[r] == rest[r]);
                assert(row_of_returning_client(prev, init, rest[r]));
                let j = choose|j: int|
                    0 <= j < init.len() && prev.contains_key(init[j].counters.client_id) && rest[r]
                        == usage_row(prev, #[trigger] init[j]);
                assert(snaps[j] == init[j]);
            } else {
                let j = snaps.len() - 1;
                assert(prev.contains_key(snaps.last().counters.client_id));
                assert(rows[r] == usage_row(prev, snaps[j]));
            }
        }
        assert forall|j: int|
            0 <= j < snaps.len() && prev.contains_key(#[trigger] snaps[j].counters.client_id) implies exists|
                r: int,
            | 0 <= r < rows.len() && #[trigger] rows[r] == usage_row(prev, snaps[j]) by {
            if j < init.len() {
                assert(init[j] == snaps[j]);
                assert(prev.contains_key(init[j].counters.client_id));
                let r = choose|r: int|
                    0 <= r < rest.len() && #[trigger] rest[r] == usage_row(prev, init[j]);
                assert(rows[r] == rest[r]);
            } else {
                assert(rows[rows.len() - 1] == usage_row(prev, snaps[j]));
            }
        }
    }
}

/// A scan that holds each client once gives each client at most one row:
/// with [`rows_are_clients_of_both_scans`], a client of both scans has
/// exactly one row, its usage row.
pub proof fn rows_have_distinct_clients(prev: Map<u32, SnapshotView>, snaps: Seq<SnapshotView>)
    requires
        distinct_clients(snaps),
    ensures
        forall|r1: int, r2: int|
            0 <= r1 < usage_rows(prev, snaps).len() && 0 <= r2 < usage_rows(prev, snaps).len() && r1
                != r2 ==> #[trigger] usage_rows(prev, snaps)[r1].client_id != #[trigger] usage_rows(
                prev,
                snaps,
            )[r2].client_id,
    decreases snaps.len(),
{
    if snaps.len() > 0 {
        let init = snaps.drop_last();
        let last = snaps.last();
        assert(distinct_clients(init)) by {
            assert forall|i: int, k: int|
                0 <= i < init.len() && 0 <= k < init.len() && i != k implies init[i].counters.client_id
                != init[k].counters.client_id by {
                assert(init[i] == snaps[i] && init[k] == snaps[k]);
            }
        }
        rows_have_distinct_clients(prev, init);
        rows_are_clients_of_both_scans(prev, init);
        let rows = usage_rows(prev, snaps);
        let rest = usage_rows(prev, init);
        if prev.contains_key(last.counters.client_id) {
            assert forall|r: int| 0 <= r < rest.len() implies rest[r].client_id
                != last.counters.client_id by {
                assert(row_of_returning_client(prev, init, rest[r]));
                let j = choose|j: int|
                    0 <= j < init.len() && prev.contains_key(init[j].counters.client_id) && rest[r]
                        == usage_row(prev, #[trigger] init[j]);
                assert(init[j] == snaps[j]);
                assert(snaps[j].counters.client_id != snaps[snaps.len() - 1].counters.client_id);
            }
            assert forall|r1: int, r2: int|
                0 <= r1 < rows.len() && 0 <= r2 < rows.len() && r1 != r2 implies #[trigger] rows[r1].client_id
                != #[trigger] rows[r2].client_id by {
                if r1 < rest.len() {
                    assert(rows[r1] == rest[r1]);
                }
                if r2 < rest.len() {
                    assert(rows[r2] == rest[r2]);
                }
            }
        }
    }
}

/// The baseline that a scan leaves holds exactly the clients of that scan:
/// clients that vanished are dropped.
pub proof fn scan_map_holds_scan_clients(snaps: Seq<SnapshotView>)
    ensures
        forall|id: u32|
            #[trigger] scan_map(snaps).contains_key(id) <==> exists|j: int|
                0 <= j < snaps.len() && #[trigger] snaps[j].counters.client_id == id,
    decreases snaps.len(),
{
    if snaps.len() > 0 {
        let init = snaps.drop_last();
        scan_map_holds_scan_clients(init);
        assert forall|id: u32|
            #[trigger] scan_map(snaps).contains_key(id) <==> exists|j: int|
                0 <= j < snaps.len() && #[trigger] snaps[j].counters.client_id == id by {
            if scan_map(snaps).contains_key(id) && id != snaps.last().counters.client_id {
                assert(scan_map(init).contains_key(id));
                let j = choose|j: int|
                    0 <= j < init.len() && #[trigger] init[j].counters.client_id == id;
                assert(snaps[j] == init[j]);
                assert(0 <= j < snaps.len() && snaps[j].counters.client_id == id);
            }
            if id == snaps.last().counters.client_id {
                assert(snaps[snaps.len() - 1].counters.client_id == id);
            }
            if exists|j: int| 0 <= j < snaps.len() && #[trigger] snaps[j].counters.client_id == id {
                let j = choose|j: int|
                    0 <= j < snaps.len() && #[trigger] snaps[j].counters.client_id == id;
                if j < init.len() {
                    assert(init[j] == snaps[j]);
                    assert(scan_map(init).contains_key(id));
                }
            }
        }
    }
}

/// A whole scan keeps each DRM client once.
pub proof fn merged_scan_has_distinct_clients(found: Seq<SnapshotView>)
    ensures
        distinct_clients(merged_scan(found)),
    decreases found.len(),
{
    if found.len() > 0 {
        merged_scan_has_distinct_clients(found.drop_last());
        merge_keeps_clients_distinct(merged_scan(found.drop_last()), found.last());
    }
}

/// Every client that a scan found is kept, with at least the GTT size of
/// each of its snapshots.
pub proof fn merged_scan_keeps_largest_gtt(found: Seq<SnapshotView>)
    ensures
        forall|j: int|
            0 <= j < found.len() ==> exists|k: int|
                0 <= k < merged_scan(found).len() && #[trigger] merged_scan(found)[k].counters.client_id
                    == (#[trigger] found[j]).counters.client_id && merged_scan(found)[k].counters.gtt_kb
                    >= found[j].counters.gtt_kb,
    decreases found.len(),
{
    if found.len() > 0 {
        let init = found.drop_last();
        let snap = found.last();
        let m = merged_scan(init);
        let r = merged_scan(found);
        merged_scan_keeps_largest_gtt(init);
        merge_keeps_largest_gtt(m, snap);
        assert(r == merge_view(m, snap));
        let id = snap.counters.client_id;
        assert forall|j: int| 0 <= j < found.len() implies exists|k: int|
            0 <= k < r.len() && #[trigger] r[k].counters.client_id == (#[trigger] found[j]).counters.client_id
                && r[k].counters.gtt_kb >= found[j].counters.gtt_kb by {
            if j == found.len() - 1 {
                let q = first_client_index(r, id)->0;
                assert(is_first_client(r, id, q));
                assert(found[j] == snap);
            } else {
                assert(found[j] == init[j]);
                let k = choose|k: int|
                    0 <= k < m.len() && #[trigger] m[k].counters.client_id
                        == (#[trigger] init[j]).counters.client_id && m[k].counters.gtt_kb
                        >= init[j].counters.gtt_kb;
                match first_client_index(m, id) {
                    Some(q) => {
                        assert(is_first_client(m, id, q));
                        if q == k && snap.counters.gtt_kb > m[q].counters.gtt_kb {
                            assert(r[k] == snap);
                        } else {
                            assert(r[k] == m[k]);
                        }
                    },
                    None => {
                        assert(r[k] == m[k]);
                    },
                }
            }
        }
    }
}

/// The engines are reported in the order `rcs`, `ccs`, `bcs`, `vcs`,
/// `vecs`: the `k`-th name that [`fdinfo_engine_name`] gives is the text
/// whose bytes the `k`-th cycle delta is looked up by, so each delta of a
/// row belongs to the engine its label names.
pub proof fn engine_deltas_follow_report_order(
    cur: Seq<(Seq<u8>, u64, u64)>,
    prev: Seq<(Seq<u8>, u64, u64)>,
)
    ensures
        engine_name_chars(0) == "rcs"@,
        engine_name_chars(1) == "ccs"@,
        engine_name_chars(2) == "bcs"@,
        engine_name_chars(3) == "vcs"@,
        engine_name_chars(4) == "vecs"@,
        forall|k: int|
            0 <= k < ENGINE_COUNT ==> #[trigger] engine_name(k) == ascii_bytes(engine_name_chars(k)),
        engine_deltas(cur, prev).len() == ENGINE_COUNT,
        forall|k: int|
            0 <= k < ENGINE_COUNT ==> #[trigger] engine_deltas(cur, prev)[k] == engine_delta(
                cur,
                prev,
                ascii_bytes(engine_name_chars(k)),
            ),
{
    reveal_strlit("rcs");
    reveal_strlit("ccs");
    reveal_strlit("bcs");
    reveal_strlit("vcs");
    reveal_strlit("vecs");
    assert(engine_name(0) =~= ascii_bytes(engine_name_chars(0)));
    assert(engine_name(1) =~= ascii_bytes(engine_name_chars(1)));
    assert(engine_name(2) =~= ascii_bytes(engine_name_chars(2)));
    assert(engine_name(3) =~= ascii_bytes(engine_name_chars(3)));
    assert(engine_name(4) =~= ascii_bytes(engine_name_chars(4)));
    assert(engine_name_chars(0) =~= "rcs"@);
    assert(engine_name_chars(1) =~= "ccs"@);
    assert(engine_name_chars(2) =~= "bcs"@);
    assert(engine_name_chars(3) =~= "vcs"@);
    assert(engine_name_chars(4) =~= "vecs"@);
}

/// The (busy, total) cycles of engine `name` after setting one of them:
/// the value set, and the other one kept (0 for a new entry); every other
/// engine keeps its counts.
proof fn lemma_set_counts(entries: Seq<(Seq<u8>, u64, u64)>, name: Seq<u8>, v: u64)
    ensures
        engine_counts(set_cycles(entries, name, v), name) == Some(
            (
                v,
                match engine_counts(entries, name) {
                    Some(c) => c.1,
                    None => 0u64,
                },
            ),
        ),
        engine_counts(set_total_cycles(entries, name, v), name) == Some(
            (
                match engine_counts(entries, name) {
                    Some(c) => c.0,
                    None => 0u64,
                },
                v,
            ),
        ),
        forall|other: Seq<u8>|
            other != name ==> #[trigger] engine_counts(set_cycles(entries, name, v), other)
                == engine_counts(entries, other),
        forall|other: Seq<u8>|
            other != name ==> #[trigger] engine_counts(set_total_cycles(entries, name, v), other)
                == engine_counts(entries, other),
{
    let a = set_cycles(entries, name, v);
    let b = set_total_cycles(entries, name, v);
    match entry_index(entries, name) {
        Some(j) => {
            assert(is_first_entry(entries, name, j));
            assert(is_first_entry(a, name, j));
            assert(is_first_entry(b, name, j));
            lemma_first_entry_unique(a, name, j);
            lemma_first_entry_unique(b, name, j);
        },
        None => {
            assert forall|k: int| 0 <= k < entries.len() implies entries[k].0 != name by {
                if entries[k].0 == name {
                    lemma_entry_has_first(entries, name, k);
                }
            }
            let n = entries.len() as int;
            assert(is_first_entry(a, name, n));
            assert(is_first_entry(b, name, n));
            lemma_first_entry_unique(a, name, n);
            lemma_first_entry_unique(b, name, n);
        },
    }
    assert forall|other: Seq<u8>| other != name implies #[trigger] engine_counts(a, other)
        == engine_counts(entries, other) by {
        lemma_other_entry_kept(entries, a, name, other);
    }
    assert forall|other: Seq<u8>| other != name implies #[trigger] engine_counts(b, other)
        == engine_counts(entries, other) by {
        lemma_other_entry_kept(entries, b, name, other);
    }
}

/// `r` is `entries` with the entry of `name` changed or a new entry for
/// `name` appended; the counts of any other engine are unchanged.
proof fn lemma_other_entry_kept(
    entries: Seq<(Seq<u8>, u64, u64)>,
    r: Seq<(Seq<u8>, u64, u64)>,
    name: Seq<u8>,
    other: Seq<u8>,
)
    requires
        other != name,
        r.len() == entries.len() || (r.len() == entries.len() + 1 && r.last().0 == name),
        forall|k: int| 0 <= k < entries.len() ==> (r[k] == entries[k] || (entries[k].0 == name
            && r[k].0 == name)),
    ensures
        engine_counts(r, other) == engine_counts(entries, other),
{
    match entry_index(entries, other) {
        Some(q) => {
            assert(is_first_entry(entries, other, q));
            assert(r[q] == entries[q]);
            assert forall|k: int| 0 <= k < q implies r[k].0 != other by {
                assert(entries[k].0 != other);
            }
            assert(is_first_entry(r, other, q));
            lemma_first_entry_unique(r, other, q);
        },
        None => {
            assert forall|k: int| 0 <= k < entries.len() implies entries[k].0 != other by {
                if entries[k].0 == other {
                    lemma_entry_has_first(entries, other, k);
                }
            }
            assert forall|q: int| !is_first_entry(r, other, q) by {
                if 0 <= q < entries.len() {
                    assert(r[q].0 != other);
                }
            }
        },
    }
}

/// A `drm-cycles-<name>:<value>` line (once trimmed) records the value,
/// parsed as `u64` (0 when it does not parse), as the busy cycles of engine
/// `name`; the total cycles of that engine, every other engine, the client
/// id and the GTT size are unchanged.
pub proof fn cycles_line_records_busy_cycles(
    st: CountersView,
    raw: Seq<u8>,
    name: Seq<u8>,
    value: Seq<u8>,
)
    requires
        forall|i: int| 0 <= i < name.len() ==> name[i] != 58,
        trim(raw) == cycles_key() + name + seq![58u8] + value,
    ensures
        ({
            let r = apply_line(st, raw);
            &&& r.client_id == st.client_id
            &&& r.gtt_kb == st.gtt_kb
            &&& engine_counts(r.engines, name) == Some(
                (
                    u64_or_zero(trim(value)),
                    match engine_counts(st.engines, name) {
                        Some(c) => c.1,
                        None => 0u64,
                    },
                ),
            )
            &&& forall|other: Seq<u8>|
                other != name ==> #[trigger] engine_counts(r.engines, other) == engine_counts(
                    st.engines,
                    other,
                )
        }),
{
    let line = trim(raw);
    assert(line[5] == 121u8);
    assert(line[4] == 99u8);
    assert(!has_prefix(line, client_id_key())) by {
        if has_prefix(line, client_id_key()) {
            assert(line.take(14)[5] == client_id_key()[5]);
        }
    }
    assert(!has_prefix(line, gtt_key())) by {
        if has_prefix(line, gtt_key()) {
            assert(line.take(14)[4] == gtt_key()[4]);
        }
    }
    assert(line.take(11) =~= cycles_key());
    let rest = line.skip(11);
    assert(rest =~= name + seq![58u8] + value);
    let n = name.len() as int;
    assert(is_first_byte(rest, 58, n));
    crate::text::lemma_first_byte_unique(rest, 58, n);
    assert(rest.take(n) =~= name);
    assert(rest.skip(n + 1) =~= value);
    lemma_set_counts(st.engines, name, u64_or_zero(trim(value)));
}

/// A `drm-total-cycles-<name>:<value>` line (once trimmed) records the
/// value, parsed as `u64` (0 when it does not parse), as the total cycles
/// of engine `name`; the busy cycles of that engine, every other engine,
/// the client id and the GTT size are unchanged.
pub proof fn total_cycles_line_records_total_cycles(
    st: CountersView,
    raw: Seq<u8>,
    name: Seq<u8>,
    value: Seq<u8>,
)
    requires
        forall|i: int| 0 <= i < name.len() ==> name[i] != 58,
        trim(raw) == total_cycles_key() + name + seq![58u8] + value,
    ensures
        ({
            let r = apply_line(st, raw);
            &&& r.client_id == st.client_id
            &&& r.gtt_kb == st.gtt_kb
            &&& engine_counts(r.engines, name) == Some(
                (
                    match engine_counts(st.engines, name) {
                        Some(c) => c.0,
                        None => 0u64,
                    },
                    u64_or_zero(trim(value)),
                ),
            )
            &&& forall|other: Seq<u8>|
                other != name ==> #[trigger] engine_counts(r.engines, other) == engine_counts(
                    st.engines,
                    other,
                )
        }),
{
    let line = trim(raw);
    assert(line[4] == 116u8);
    assert(line[10] == 99u8);
    assert(!has_prefix(line, client_id_key())) by {
        if has_prefix(line, client_id_key()) {
            assert(line.take(14)[4] == client_id_key()[4]);
        }
    }
    assert(!has_prefix(line, gtt_key())) by {
        if has_prefix(line, gtt_key()) {
            assert(line.take(14)[10] == gtt_key()[10]);
        }
    }
    assert(!has_prefix(line, cycles_key())) by {
        if has_prefix(line, cycles_key()) {
            assert(line.take(11)[4] == cycles_key()[4]);
        }
    }
    assert(line.take(17) =~= total_cycles_key());
    let rest = line.skip(17);
    assert(rest =~= name + seq![58u8] + value);
    let n = name.len() as int;
    assert(is_first_byte(rest, 58, n));
    crate::text::lemma_first_byte_unique(rest, 58, n);
    assert(rest.take(n) =~= name);
    assert(rest.skip(n + 1) =~= value);
    lemma_set_counts(st.engines, name, u64_or_zero(trim(value)));
}

/// The keys the parser looks for are the xe driver's fdinfo keys:
/// `drm-driver:` followed by a tab or a space and `xe`, `drm-client-id:`,
/// `drm-total-gtt:`, `drm-cycles-` and `drm-total-cycles-`.
pub proof fn fdinfo_keys_are_the_driver_keys()
    ensures
        driver_tag_tab() == ascii_bytes("drm-driver:\txe"@),
        driver_tag_space() == ascii_bytes("drm-driver: xe"@),
        client_id_key() == ascii_bytes("drm-client-id:"@),
        gtt_key() == ascii_bytes("drm-total-gtt:"@),
        cycles_key() == ascii_bytes("drm-cycles-"@),
        total_cycles_key() == ascii_bytes("drm-total-cycles-"@),
{
    reveal_strlit("drm-driver:\txe");
    reveal_strlit("drm-driver: xe");
    reveal_strlit("drm-client-id:");
    reveal_strlit("drm-total-gtt:");
    reveal_strlit("drm-cycles-");
    reveal_strlit("drm-total-cycles-");
    assert(driver_tag_tab() =~= ascii_bytes("drm-driver:\txe"@));
    assert(driver_tag_space() =~= ascii_bytes("drm-driver: xe"@));
    assert(client_id_key() =~= ascii_bytes("drm-client-id:"@));
    assert(gtt_key() =~= ascii_bytes("drm-total-gtt:"@));
    assert(cycles_key() =~= ascii_bytes("drm-cycles-"@));
    assert(total_cycles_key() =~= ascii_bytes("drm-total-cycles-"@));
}

} // verus!
