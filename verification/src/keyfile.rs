//! The sectioned `key = value` text format used to persist properties.
//!
//! This module gives the format its mathematical definition: what a
//! properties value serializes to ([`spec_serialize`]), and what any
//! input text parses to ([`spec_parse`]). The executable codec in
//! [`crate::properties`] is verified against these definitions, and
//! [`lemma_round_trip`] proves that parsing inverts serialization.
//!
//! Writing conventions: each set field becomes one `key = value` line,
//! a section is written only when present, sections are separated by a
//! single blank line, and lines end with a line feed. Reading
//! conventions: unknown sections and keys are ignored, a value is the
//! text after the first `=` with one leading space removed, and a line
//! that is neither blank, a `[section]` header, nor a `key = value`
//! pair is malformed.

use vstd::prelude::*;
use crate::properties::{ComputeView, CoreView, PropsView, empty_props};

verus! {

// ---------------------------------------------------------------------------
// Serialization
// ---------------------------------------------------------------------------
/// One `key = value` line, terminated by a line feed; empty when the
/// field is unset.
pub open spec fn kv_line(key: Seq<char>, v: Option<Seq<char>>) -> Seq<char> {
    match v {
        Some(s) => key + " = "@ + s + "\n"@,
        None => Seq::empty(),
    }
}

/// The serialized `core` section: header plus one line per set field.
pub open spec fn core_block(c: CoreView) -> Seq<char> {
    "[core]\n"@ + kv_line("project"@, c.project) + kv_line("account"@, c.account)
}

/// The serialized `compute` section: header plus one line per set field.
pub open spec fn compute_block(c: ComputeView) -> Seq<char> {
    "[compute]\n"@ + kv_line("zone"@, c.zone) + kv_line("region"@, c.region)
}

/// The full serialized text: only present sections are written, in
/// declaration order, separated by a single blank line.
pub open spec fn spec_serialize(p: PropsView) -> Seq<char> {
    match (p.core, p.compute) {
        (Some(c), Some(k)) => core_block(c) + "\n"@ + compute_block(k),
        (Some(c), None) => core_block(c),
        (None, Some(k)) => compute_block(k),
        (None, None) => Seq::empty(),
    }
}

// ---------------------------------------------------------------------------
// Line splitting
// ---------------------------------------------------------------------------
/// True iff `s` contains no line feed.
pub open spec fn no_nl(s: Seq<char>) -> bool {
    forall|i: int| 0 <= i < s.len() ==> s[i] != '\n'
}

/// The lines of `s`: maximal runs of characters between line feeds.
/// Splitting never yields an empty sequence; text without a line feed
/// is a single line, and a trailing line feed yields a final empty line.
pub open spec fn split_lines(s: Seq<char>) -> Seq<Seq<char>>
    decreases s.len(),
{
    if s.len() == 0 {
        seq![Seq::<char>::empty()]
    } else if s[0] == '\n' {
        seq![Seq::<char>::empty()] + split_lines(s.drop_first())
    } else {
        let rest = split_lines(s.drop_first());
        seq![seq![s[0]] + rest[0]] + rest.drop_first()
    }
}

/// Splitting always yields at least one line.
pub proof fn lemma_split_lines_nonempty(s: Seq<char>)
    ensures
        split_lines(s).len() >= 1,
    decreases s.len(),
{
    if s.len() == 0 {
    } else {
        lemma_split_lines_nonempty(s.drop_first());
    }
}

/// Text without a line feed is a single line.
pub proof fn lemma_split_no_nl(s: Seq<char>)
    requires
        no_nl(s),
    ensures
        split_lines(s) == seq![s],
    decreases s.len(),
{
    if s.len() == 0 {
        assert(s =~= Seq::<char>::empty());
        assert(split_lines(s) =~~= seq![s]);
    } else {
        assert(s[0] != '\n');
        assert(no_nl(s.drop_first()));
        lemma_split_no_nl(s.drop_first());
        lemma_split_lines_nonempty(s.drop_first());
        assert(seq![s[0]] + s.drop_first() =~= s);
        assert(split_lines(s) =~~= seq![s]);
    }
}

/// Splitting off the first line: a line-feed-free prefix followed by a
/// line feed is the first line, and the rest splits independently.
pub proof fn lemma_split_concat(s1: Seq<char>, s2: Seq<char>)
    requires
        no_nl(s1),
    ensures
        split_lines(s1 + seq!['\n'] + s2) == seq![s1] + split_lines(s2),
    decreases s1.len(),
{
    let full = s1 + seq!['\n'] + s2;
    if s1.len() == 0 {
        assert(full[0] == '\n');
        assert(full.drop_first() =~= s2);
        assert(s1 =~= Seq::<char>::empty());
        assert(split_lines(full) =~~= seq![s1] + split_lines(s2));
    } else {
        let s1p = s1.drop_first();
        assert(no_nl(s1p));
        lemma_split_concat(s1p, s2);
        lemma_split_lines_nonempty(s1p + seq!['\n'] + s2);
        assert(full[0] == s1[0]);
        assert(full[0] != '\n');
        assert(full.drop_first() =~= s1p + seq!['\n'] + s2);
        let rest = split_lines(full.drop_first());
        assert(rest == seq![s1p] + split_lines(s2));
        assert(rest[0] == s1p);
        assert(rest.drop_first() =~~= split_lines(s2));
        assert(seq![full[0]] + rest[0] =~= s1);
        assert(split_lines(full) =~~= seq![s1] + split_lines(s2));
    }
}

// ---------------------------------------------------------------------------
// Key/value lines
// ---------------------------------------------------------------------------
/// The index of the first `=` in `s`, or `s.len()` if there is none.
pub open spec fn first_eq(s: Seq<char>) -> int
    decreases s.len(),
{
    if s.len() == 0 {
        0
    } else if s[0] == '=' {
        0
    } else {
        1 + first_eq(s.drop_first())
    }
}

/// A witness pins [`first_eq`] down: if `s[i]` is the first `=`, then
/// `first_eq(s) == i`.
pub proof fn lemma_first_eq_at(s: Seq<char>, i: int)
    requires
        0 <= i < s.len(),
        s[i] == '=',
        forall|j: int| 0 <= j < i ==> s[j] != '=',
    ensures
        first_eq(s) == i,
    decreases i,
{
    if i == 0 {
    } else {
        assert(s[0] != '=');
        let sp = s.drop_first();
        assert(sp[i - 1] == '=');
        assert(forall|j: int| 0 <= j < i - 1 ==> sp[j] != '=');
        lemma_first_eq_at(sp, i - 1);
    }
}

/// With no `=` anywhere, [`first_eq`] is the length.
pub proof fn lemma_first_eq_none(s: Seq<char>)
    requires
        forall|j: int| 0 <= j < s.len() ==> s[j] != '=',
    ensures
        first_eq(s) == s.len(),
    decreases s.len(),
{
    if s.len() == 0 {
    } else {
        lemma_first_eq_none(s.drop_first());
    }
}

/// The key of a `key = value` line: the text before the first `=`,
/// with one trailing space removed.
pub open spec fn kv_key(line: Seq<char>) -> Seq<char> {
    let k = line.take(first_eq(line));
    if k.len() > 0 && k[k.len() - 1] == ' ' {
        k.drop_last()
    } else {
        k
    }
}

/// The value of a `key = value` line: the text after the first `=`,
/// with one leading space removed.
pub open spec fn kv_value(line: Seq<char>) -> Seq<char> {
    let v = line.skip(first_eq(line) + 1);
    if v.len() > 0 && v[0] == ' ' {
        v.drop_first()
    } else {
        v
    }
}

// ---------------------------------------------------------------------------
// Parsing
// ---------------------------------------------------------------------------
/// Which section the parser is inside.
#[derive(Clone, Copy, Debug, PartialEq, Eq, Structural)]
pub enum SectionKind {
    /// Before any section header.
    Preamble,
    /// Inside `[core]`.
    CoreSection,
    /// Inside `[compute]`.
    ComputeSection,
    /// Inside a section this model does not recognize.
    UnknownSection,
}

/// The parser's state: the current section and the properties
/// accumulated so far.
pub ghost struct ParseState {
    pub section: SectionKind,
    pub props: PropsView,
}

/// The state parsing starts from: no section entered, nothing set.
pub open spec fn init_state() -> ParseState {
    ParseState { section: SectionKind::Preamble, props: empty_props() }
}

/// Materialize the `core` section if it is absent.
pub open spec fn materialize_core(p: PropsView) -> PropsView {
    match p.core {
        Some(_) => p,
        None => PropsView { core: Some(CoreView { project: None, account: None }), ..p },
    }
}

/// Materialize the `compute` section if it is absent.
pub open spec fn materialize_compute(p: PropsView) -> PropsView {
    match p.compute {
        Some(_) => p,
        None => PropsView { compute: Some(ComputeView { zone: None, region: None }), ..p },
    }
}

/// Enter the section named by a header line: a recognized section is
/// materialized, an unrecognized one is tolerated and skipped over.
pub open spec fn apply_header(st: ParseState, name: Seq<char>) -> ParseState {
    if name == "core"@ {
        ParseState { section: SectionKind::CoreSection, props: materialize_core(st.props) }
    } else if name == "compute"@ {
        ParseState { section: SectionKind::ComputeSection, props: materialize_compute(st.props) }
    } else {
        ParseState { section: SectionKind::UnknownSection, props: st.props }
    }
}

/// Record one `key = value` pair. A recognized key of the current
/// recognized section is assigned (last assignment wins); anything
/// else, and any empty value, is ignored.
pub open spec fn apply_kv(st: ParseState, key: Seq<char>, value: Seq<char>) -> ParseState {
    if value.len() == 0 {
        st
    } else if st.section is CoreSection {
        let c = match st.props.core {
            Some(c) => c,
            None => CoreView { project: None, account: None },
        };
        if key == "project"@ {
            ParseState {
                section: st.section,
                props: PropsView { core: Some(CoreView { project: Some(value), ..c }), ..st.props },
            }
        } else if key == "account"@ {
            ParseState {
                section: st.section,
                props: PropsView { core: Some(CoreView { account: Some(value), ..c }), ..st.props },
            }
        } else {
            st
        }
    } else if st.section is ComputeSection {
        let c = match st.props.compute {
            Some(c) => c,
            None => ComputeView { zone: None, region: None },
        };
        if key == "zone"@ {
            ParseState {
                section: st.section,
                props: PropsView {
                    compute: Some(ComputeView { zone: Some(value), ..c }),
                    ..st.props
                },
            }
        } else if key == "region"@ {
            ParseState {
                section: st.section,
                props: PropsView {
                    compute: Some(ComputeView { region: Some(value), ..c }),
                    ..st.props
                },
            }
        } else {
            st
        }
    } else {
        st
    }
}

/// The name between the brackets of a `[name]` header line.
pub open spec fn header_name(line: Seq<char>) -> Seq<char> {
    line.subrange(1, line.len() - 1)
}

/// Parse one line: blank lines are skipped, `[name]` enters a section,
/// `key = value` records a pair, anything else is malformed (`None`).
pub open spec fn step_line(st: ParseState, line: Seq<char>) -> Option<ParseState> {
    if line.len() == 0 {
        Some(st)
    } else if line[0] == '[' {
        if line.len() >= 2 && line[line.len() - 1] == ']' {
            Some(apply_header(st, header_name(line)))
        } else {
            None
        }
    } else if first_eq(line) < line.len() {
        Some(apply_kv(st, kv_key(line), kv_value(line)))
    } else {
        None
    }
}

/// Parse a sequence of lines from a given state; `None` once any line
/// is malformed.
pub open spec fn run_lines(lines: Seq<Seq<char>>, st: ParseState) -> Option<ParseState>
    decreases lines.len(),
{
    if lines.len() == 0 {
        Some(st)
    } else {
        match step_line(st, lines[0]) {
            Some(st2) => run_lines(lines.drop_first(), st2),
            None => None,
        }
    }
}

/// What any input text parses to: the accumulated properties, or
/// `None` when some line is malformed.
pub open spec fn spec_parse(text: Seq<char>) -> Option<PropsView> {
    match run_lines(split_lines(text), init_state()) {
        Some(st) => Some(st.props),
        None => None,
    }
}

/// Parsing distributes over concatenation of line sequences.
pub proof fn lemma_run_concat(l1: Seq<Seq<char>>, l2: Seq<Seq<char>>, st: ParseState)
    ensures
        run_lines(l1 + l2, st) == (match run_lines(l1, st) {
            Some(m) => run_lines(l2, m),
            None => None,
        }),
    decreases l1.len(),
{
    if l1.len() == 0 {
        assert(l1 + l2 =~~= l2);
    } else {
        assert((l1 + l2)[0] == l1[0]);
        assert((l1 + l2).drop_first() =~~= l1.drop_first() + l2);
        match step_line(st, l1[0]) {
            Some(st2) => {
                lemma_run_concat(l1.drop_first(), l2, st2);
            },
            None => {},
        }
    }
}

// ---------------------------------------------------------------------------
// Executable helpers over `&str`
// ---------------------------------------------------------------------------
/// String equality by content.
pub(crate) fn str_eq(a: &str, b: &str) -> (r: bool)
    ensures
        r == (a@ == b@),
{
    let sa: String = a.to_owned();
    let sb: String = b.to_owned();
    sa == sb
}

/// The views of a sequence of owned lines.
pub open spec fn views_of(lines: Seq<String>) -> Seq<Seq<char>> {
    lines.map_values(|l: String| l@)
}

/// Appending a line appends its view.
pub proof fn lemma_views_push(lines: Seq<String>, l: String)
    ensures
        views_of(lines.push(l)) == views_of(lines).push(l@),
{
    assert(views_of(lines.push(l)) =~~= views_of(lines).push(l@));
}

/// Split `s` into its lines, as [`split_lines`] defines them.
pub(crate) fn split_lines_exec(s: &str) -> (lines: Vec<String>)
    ensures
        views_of(lines@) == split_lines(s@),
{
    let n = s.unicode_len();
    let mut lines: Vec<String> = Vec::new();
    let mut start: usize = 0;
    let mut i: usize = 0;
    proof {
        assert(s@.subrange(0, n as int) =~= s@);
        assert(views_of(lines@) =~~= Seq::<Seq<char>>::empty());
    }
    while i < n
        invariant
            0 <= start as int <= i as int <= n as int,
            n as int == s@.len(),
            no_nl(s@.subrange(start as int, i as int)),
            split_lines(s@) == views_of(lines@) + split_lines(
                s@.subrange(start as int, n as int),
            ),
        decreases n as int - i as int,
    {
        let c = s.get_char(i);
        if c == '\n' {
            let line = s.substring_char(start, i).to_owned();
            proof {
                let seg = s@.subrange(start as int, i as int);
                let rest = s@.subrange(i as int + 1, n as int);
                assert(s@.subrange(start as int, n as int) =~= seg + seq!['\n'] + rest);
                lemma_split_concat(seg, rest);
                lemma_views_push(lines@, line);
                assert(line@ == seg);
                assert(views_of(lines@).push(seg) =~~= views_of(lines@) + seq![seg]);
                assert((views_of(lines@) + seq![seg]) + split_lines(rest) =~~= views_of(lines@)
                    + (seq![seg] + split_lines(rest)));
            }
            lines.push(line);
            start = i + 1;
        } else {
            proof {
                assert(s@.subrange(start as int, i as int + 1) =~= s@.subrange(
                    start as int,
                    i as int,
                ).push(s@[i as int]));
            }
        }
        i = i + 1;
    }
    let last = s.substring_char(start, n).to_owned();
    proof {
        lemma_split_no_nl(s@.subrange(start as int, n as int));
        lemma_views_push(lines@, last);
        assert(views_of(lines@).push(last@) =~~= views_of(lines@) + seq![s@.subrange(
            start as int,
            n as int,
        )]);
    }
    lines.push(last);
    lines
}

/// The index of the first `=` in `line`, or its length if none.
pub(crate) fn find_eq(line: &str) -> (r: usize)
    ensures
        r as int == first_eq(line@),
        r as int <= line@.len(),
{
    let n = line.unicode_len();
    let mut i: usize = 0;
    while i < n
        invariant
            0 <= i as int <= n as int,
            n as int == line@.len(),
            forall|j: int| 0 <= j < i as int ==> line@[j] != '=',
        decreases n as int - i as int,
    {
        if line.get_char(i) == '=' {
            proof {
                lemma_first_eq_at(line@, i as int);
            }
            return i;
        }
        i = i + 1;
    }
    proof {
        lemma_first_eq_none(line@);
    }
    n
}

} // verus!

verus! {

// ---------------------------------------------------------------------------
// The round trip: parsing inverts serialization
// ---------------------------------------------------------------------------
/// A field value the writing conventions can carry faithfully:
/// non-empty (the model's invariant) and free of line feeds.
pub open spec fn good_value(v: Option<Seq<char>>) -> bool {
    match v {
        Some(s) => s.len() > 0 && no_nl(s),
        None => true,
    }
}

/// A properties value whose serialized text parses back to it: every
/// present field value is non-empty and free of line feeds.
pub open spec fn serializable(p: PropsView) -> bool {
    &&& match p.core {
        Some(c) => good_value(c.project) && good_value(c.account),
        None => true,
    }
    &&& match p.compute {
        Some(k) => good_value(k.zone) && good_value(k.region),
        None => true,
    }
}

/// The lines a single optional field serializes to: one `key = value`
/// line, or none.
pub open spec fn opt_kv_lines(key: Seq<char>, v: Option<Seq<char>>) -> Seq<Seq<char>> {
    match v {
        Some(s) => seq![key + " = "@ + s],
        None => Seq::<Seq<char>>::empty(),
    }
}

/// The lines of the serialized `core` section.
pub open spec fn core_lines(c: CoreView) -> Seq<Seq<char>> {
    seq!["[core]"@] + opt_kv_lines("project"@, c.project) + opt_kv_lines("account"@, c.account)
}

/// The lines of the serialized `compute` section.
pub open spec fn compute_lines(c: ComputeView) -> Seq<Seq<char>> {
    seq!["[compute]"@] + opt_kv_lines("zone"@, c.zone) + opt_kv_lines("region"@, c.region)
}

/// Splitting one serialized field line off the front of a text.
proof fn lemma_split_opt_kv(key: Seq<char>, v: Option<Seq<char>>, rest: Seq<char>)
    requires
        good_value(v),
        no_nl(key),
    ensures
        split_lines(kv_line(key, v) + rest) == opt_kv_lines(key, v) + split_lines(rest),
{
    reveal_strlit(" = ");
    reveal_strlit("\n");
    match v {
        Some(s) => {
            let body = key + " = "@ + s;
            assert(kv_line(key, v) + rest =~= body + seq!['\n'] + rest);
            assert forall|i: int| 0 <= i < body.len() implies body[i] != '\n' by {
                if i < key.len() {
                    assert(body[i] == key[i]);
                } else if i < key.len() + 3 {
                    assert(body[i] == " = "@[i - key.len()]);
                } else {
                    assert(body[i] == s[i - key.len() - 3]);
                }
            }
            lemma_split_concat(body, rest);
            assert(opt_kv_lines(key, v) + split_lines(rest) =~~= seq![body] + split_lines(rest));
        },
        None => {
            assert(kv_line(key, v) + rest =~= rest);
            assert(opt_kv_lines(key, v) + split_lines(rest) =~~= split_lines(rest));
        },
    }
}

/// Splitting the serialized `core` section off the front of a text.
proof fn lemma_split_core_block(c: CoreView, rest: Seq<char>)
    requires
        good_value(c.project),
        good_value(c.account),
    ensures
        split_lines(core_block(c) + rest) == core_lines(c) + split_lines(rest),
{
    reveal_strlit("[core]\n");
    reveal_strlit("[core]");
    reveal_strlit("project");
    reveal_strlit("account");
    let tail1 = kv_line("account"@, c.account) + rest;
    let tail0 = kv_line("project"@, c.project) + tail1;
    assert(core_block(c) + rest =~= "[core]"@ + seq!['\n'] + tail0);
    assert(no_nl("[core]"@));
    lemma_split_concat("[core]"@, tail0);
    assert(no_nl("project"@));
    lemma_split_opt_kv("project"@, c.project, tail1);
    assert(no_nl("account"@));
    lemma_split_opt_kv("account"@, c.account, rest);
    assert(split_lines(core_block(c) + rest) =~~= core_lines(c) + split_lines(rest));
}

/// Splitting the serialized `compute` section off the front of a text.
proof fn lemma_split_compute_block(c: ComputeView, rest: Seq<char>)
    requires
        good_value(c.zone),
        good_value(c.region),
    ensures
        split_lines(compute_block(c) + rest) == compute_lines(c) + split_lines(rest),
{
    reveal_strlit("[compute]\n");
    reveal_strlit("[compute]");
    reveal_strlit("zone");
    reveal_strlit("region");
    let tail1 = kv_line("region"@, c.region) + rest;
    let tail0 = kv_line("zone"@, c.zone) + tail1;
    assert(compute_block(c) + rest =~= "[compute]"@ + seq!['\n'] + tail0);
    assert(no_nl("[compute]"@));
    lemma_split_concat("[compute]"@, tail0);
    assert(no_nl("zone"@));
    lemma_split_opt_kv("zone"@, c.zone, tail1);
    assert(no_nl("region"@));
    lemma_split_opt_kv("region"@, c.region, rest);
    assert(split_lines(compute_block(c) + rest) =~~= compute_lines(c) + split_lines(rest));
}

/// A `key = value` line parses back to exactly that key and value.
proof fn lemma_step_kv(st: ParseState, key: Seq<char>, v: Seq<char>)
    requires
        key.len() > 0,
        key[0] != '[',
        forall|i: int| 0 <= i < key.len() ==> key[i] != '=',
        v.len() > 0,
    ensures
        step_line(st, key + " = "@ + v) == Some(apply_kv(st, key, v)),
{
    reveal_strlit(" = ");
    let sep = " = "@;
    let line = key + sep + v;
    let kl = key.len() as int;
    assert(line[0] == key[0]);
    assert(line[kl + 1] == sep[1]);
    assert forall|j: int| 0 <= j < kl + 1 implies line[j] != '=' by {
        if j < kl {
            assert(line[j] == key[j]);
        } else {
            assert(line[j] == sep[0]);
        }
    }
    lemma_first_eq_at(line, kl + 1);
    assert(line.take(kl + 1) =~= key + seq![' ']);
    assert((key + seq![' ']).drop_last() =~= key);
    assert(kv_key(line) == key);
    assert(line.skip(kl + 2) =~= seq![' '] + v);
    assert((seq![' '] + v).drop_first() =~= v);
    assert(kv_value(line) == v);
}

/// Parsing the lines of the `core` section from a state with no core
/// section yet yields exactly the section that was written.
proof fn lemma_run_core_lines(st: ParseState, c: CoreView)
    requires
        good_value(c.project),
        good_value(c.account),
        st.props.core is None,
    ensures
        run_lines(core_lines(c), st) == Some(
            ParseState {
                section: SectionKind::CoreSection,
                props: PropsView { core: Some(c), compute: st.props.compute },
            },
        ),
{
    reveal_with_fuel(run_lines, 5);
    reveal_strlit("[core]");
    reveal_strlit("core");
    reveal_strlit("project");
    reveal_strlit("account");
    let hdr = "[core]"@;
    assert(hdr.len() == 6 && hdr[0] == '[' && hdr[5] == ']');
    assert(header_name(hdr) =~= "core"@);
    let st1 = apply_header(st, "core"@);
    assert(step_line(st, hdr) == Some(st1));
    assert(st1.section is CoreSection);
    assert(st1.props.core == Some(CoreView { project: None, account: None }));
    assert(st1.props.compute == st.props.compute);
    let lines = core_lines(c);
    assert(lines[0] == hdr);
    let kvs = opt_kv_lines("project"@, c.project) + opt_kv_lines("account"@, c.account);
    assert(lines.drop_first() =~~= kvs);
    let st_end = ParseState {
        section: SectionKind::CoreSection,
        props: PropsView { core: Some(c), compute: st.props.compute },
    };
    match (c.project, c.account) {
        (Some(pv), Some(av)) => {
            lemma_step_kv(st1, "project"@, pv);
            let st2 = apply_kv(st1, "project"@, pv);
            assert(st2.props.core == Some(CoreView { project: Some(pv), account: None }));
            lemma_step_kv(st2, "account"@, av);
            let st3 = apply_kv(st2, "account"@, av);
            assert(st3 == st_end);
            let l1 = "project"@ + " = "@ + pv;
            let l2 = "account"@ + " = "@ + av;
            assert(kvs =~~= seq![l1, l2]);
            assert(kvs.drop_first() =~~= seq![l2]);
            assert(seq![l2].drop_first() =~~= Seq::<Seq<char>>::empty());
            assert(run_lines(lines, st) == Some(st_end));
        },
        (Some(pv), None) => {
            lemma_step_kv(st1, "project"@, pv);
            let st2 = apply_kv(st1, "project"@, pv);
            assert(st2 == st_end);
            let l1 = "project"@ + " = "@ + pv;
            assert(kvs =~~= seq![l1]);
            assert(seq![l1].drop_first() =~~= Seq::<Seq<char>>::empty());
            assert(run_lines(lines, st) == Some(st_end));
        },
        (None, Some(av)) => {
            lemma_step_kv(st1, "account"@, av);
            let st2 = apply_kv(st1, "account"@, av);
            assert(st2 == st_end);
            let l2 = "account"@ + " = "@ + av;
            assert(kvs =~~= seq![l2]);
            assert(seq![l2].drop_first() =~~= Seq::<Seq<char>>::empty());
            assert(run_lines(lines, st) == Some(st_end));
        },
        (None, None) => {
            assert(st1 == st_end);
            assert(kvs =~~= Seq::<Seq<char>>::empty());
            assert(run_lines(lines, st) == Some(st_end));
        },
    }
}

/// Parsing the lines of the `compute` section from a state with no
/// compute section yet yields exactly the section that was written.
proof fn lemma_run_compute_lines(st: ParseState, c: ComputeView)
    requires
        good_value(c.zone),
        good_value(c.region),
        st.props.compute is None,
    ensures
        run_lines(compute_lines(c), st) == Some(
            ParseState {
                section: SectionKind::ComputeSection,
                props: PropsView { core: st.props.core, compute: Some(c) },
            },
        ),
{
    reveal_with_fuel(run_lines, 5);
    reveal_strlit("[compute]");
    reveal_strlit("compute");
    reveal_strlit("core");
    reveal_strlit("zone");
    reveal_strlit("region");
    let hdr = "[compute]"@;
    assert(hdr.len() == 9 && hdr[0] == '[' && hdr[8] == ']');
    assert(header_name(hdr) =~= "compute"@);
    assert("compute"@ != "core"@) by {
        assert("compute"@.len() == 7);
        assert("core"@.len() == 4);
    }
    let st1 = apply_header(st, "compute"@);
    assert(step_line(st, hdr) == Some(st1));
    assert(st1.section is ComputeSection);
    assert(st1.props.compute == Some(ComputeView { zone: None, region: None }));
    assert(st1.props.core == st.props.core);
    let lines = compute_lines(c);
    assert(lines[0] == hdr);
    let kvs = opt_kv_lines("zone"@, c.zone) + opt_kv_lines("region"@, c.region);
    assert(lines.drop_first() =~~= kvs);
    let st_end = ParseState {
        section: SectionKind::ComputeSection,
        props: PropsView { core: st.props.core, compute: Some(c) },
    };
    match (c.zone, c.region) {
        (Some(zv), Some(rv)) => {
            lemma_step_kv(st1, "zone"@, zv);
            let st2 = apply_kv(st1, "zone"@, zv);
            assert(st2.props.compute == Some(ComputeView { zone: Some(zv), region: None }));
            lemma_step_kv(st2, "region"@, rv);
            let st3 = apply_kv(st2, "region"@, rv);
            assert(st3 == st_end);
            let l1 = "zone"@ + " = "@ + zv;
            let l2 = "region"@ + " = "@ + rv;
            assert(kvs =~~= seq![l1, l2]);
            assert(kvs.drop_first() =~~= seq![l2]);
            assert(seq![l2].drop_first() =~~= Seq::<Seq<char>>::empty());
            assert(run_lines(lines, st) == Some(st_end));
        },
        (Some(zv), None) => {
            lemma_step_kv(st1, "zone"@, zv);
            let st2 = apply_kv(st1, "zone"@, zv);
            assert(st2 == st_end);
            let l1 = "zone"@ + " = "@ + zv;
            assert(kvs =~~= seq![l1]);
            assert(seq![l1].drop_first() =~~= Seq::<Seq<char>>::empty());
            assert(run_lines(lines, st) == Some(st_end));
        },
        (None, Some(rv)) => {
            lemma_step_kv(st1, "region"@, rv);
            let st2 = apply_kv(st1, "region"@, rv);
            assert(st2 == st_end);
            let l2 = "region"@ + " = "@ + rv;
            assert(kvs =~~= seq![l2]);
            assert(seq![l2].drop_first() =~~= Seq::<Seq<char>>::empty());
            assert(run_lines(lines, st) == Some(st_end));
        },
        (None, None) => {
            assert(st1 == st_end);
            assert(kvs =~~= Seq::<Seq<char>>::empty());
            assert(run_lines(lines, st) == Some(st_end));
        },
    }
}

/// The round trip: any properties value whose present field values
/// are non-empty and free of line feeds is parsed back, unchanged,
/// from its own serialization.
pub proof fn lemma_round_trip(p: PropsView)
    requires
        serializable(p),
    ensures
        spec_parse(spec_serialize(p)) == Some(p),
{
    reveal_with_fuel(run_lines, 5);
    reveal_strlit("\n");
    let text = spec_serialize(p);
    let st0 = init_state();
    let blank = seq![Seq::<char>::empty()];
    assert(split_lines(Seq::<char>::empty()) == blank);
    match (p.core, p.compute) {
        (Some(c), Some(k)) => {
            let ctext = compute_block(k);
            assert(text =~= core_block(c) + (seq!['\n'] + ctext));
            lemma_split_core_block(c, seq!['\n'] + ctext);
            assert((seq!['\n'] + ctext)[0] == '\n');
            assert((seq!['\n'] + ctext).drop_first() =~= ctext);
            assert(ctext + Seq::<char>::empty() =~= ctext);
            lemma_split_compute_block(k, Seq::<char>::empty());
            assert(split_lines(text) =~~= core_lines(c) + (blank + (compute_lines(k) + blank)));
            lemma_run_concat(core_lines(c), blank + (compute_lines(k) + blank), st0);
            lemma_run_core_lines(st0, c);
            let st1 = ParseState {
                section: SectionKind::CoreSection,
                props: PropsView { core: Some(c), compute: None },
            };
            lemma_run_concat(blank, compute_lines(k) + blank, st1);
            assert(step_line(st1, Seq::<char>::empty()) == Some(st1));
            assert(blank.drop_first() =~~= Seq::<Seq<char>>::empty());
            assert(run_lines(blank, st1) == Some(st1));
            lemma_run_concat(compute_lines(k), blank, st1);
            lemma_run_compute_lines(st1, k);
            let st2 = ParseState {
                section: SectionKind::ComputeSection,
                props: PropsView { core: Some(c), compute: Some(k) },
            };
            assert(step_line(st2, Seq::<char>::empty()) == Some(st2));
            assert(run_lines(blank, st2) == Some(st2));
            assert(run_lines(split_lines(text), st0) == Some(st2));
            assert(st2.props == p);
        },
        (Some(c), None) => {
            assert(text =~= core_block(c) + Seq::<char>::empty());
            lemma_split_core_block(c, Seq::<char>::empty());
            assert(split_lines(text) =~~= core_lines(c) + blank);
            lemma_run_concat(core_lines(c), blank, st0);
            lemma_run_core_lines(st0, c);
            let st1 = ParseState {
                section: SectionKind::CoreSection,
                props: PropsView { core: Some(c), compute: None },
            };
            assert(step_line(st1, Seq::<char>::empty()) == Some(st1));
            assert(blank.drop_first() =~~= Seq::<Seq<char>>::empty());
            assert(run_lines(blank, st1) == Some(st1));
            assert(run_lines(split_lines(text), st0) == Some(st1));
            assert(st1.props == p);
        },
        (None, Some(k)) => {
            assert(text =~= compute_block(k) + Seq::<char>::empty());
            lemma_split_compute_block(k, Seq::<char>::empty());
            assert(split_lines(text) =~~= compute_lines(k) + blank);
            lemma_run_concat(compute_lines(k), blank, st0);
            lemma_run_compute_lines(st0, k);
            let st1 = ParseState {
                section: SectionKind::ComputeSection,
                props: PropsView { core: None, compute: Some(k) },
            };
            assert(step_line(st1, Seq::<char>::empty()) == Some(st1));
            assert(blank.drop_first() =~~= Seq::<Seq<char>>::empty());
            assert(run_lines(blank, st1) == Some(st1));
            assert(run_lines(split_lines(text), st0) == Some(st1));
            assert(st1.props == p);
        },
        (None, None) => {
            assert(text =~= Seq::<char>::empty());
            assert(step_line(st0, Seq::<char>::empty()) == Some(st0));
            assert(blank.drop_first() =~~= Seq::<Seq<char>>::empty());
            assert(run_lines(split_lines(text), st0) == Some(st0));
            assert(st0.props == p);
        },
    }
}

} // verus!
