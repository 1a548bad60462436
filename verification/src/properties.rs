//! The typed settings a configuration profile may hold.
//!
//! A [`Properties`] value is a sparse record of optional string
//! settings grouped into two sections: `core` (project, account) and
//! `compute` (zone, region). A section is materialized only when at
//! least one of its fields is set.

use vstd::prelude::*;
use vstd::string::StringExecFns;
use crate::error::{Error, ErrorView};
use crate::keyfile::{
    SectionKind, ParseState, init_state, materialize_core, materialize_compute, spec_serialize,
    spec_parse, step_line, run_lines, split_lines, views_of, kv_line, core_block, compute_block,
    kv_key, kv_value, lemma_run_concat, split_lines_exec, find_eq, str_eq,
};

verus! {

/// Mathematical image of the `core` section.
pub ghost struct CoreView {
    pub project: Option<Seq<char>>,
    pub account: Option<Seq<char>>,
}

/// Mathematical image of the `compute` section.
pub ghost struct ComputeView {
    pub zone: Option<Seq<char>>,
    pub region: Option<Seq<char>>,
}

/// Mathematical image of a [`Properties`] value: each section is
/// present or absent, and each field of a present section is an
/// optional character sequence.
pub ghost struct PropsView {
    pub core: Option<CoreView>,
    pub compute: Option<ComputeView>,
}

/// The view of an optional owned string.
pub open spec fn opt_view(o: Option<String>) -> Option<Seq<char>> {
    match o {
        Some(s) => Some(s@),
        None => None,
    }
}

/// A properties value with no section set.
pub open spec fn empty_props() -> PropsView {
    PropsView { core: None, compute: None }
}

/// Settings of the `core` section.
#[derive(Debug, PartialEq)]
pub(crate) struct CoreProperties {
    /// The `core/project` setting.
    project: Option<String>,
    /// The `core/account` setting.
    account: Option<String>,
}

/// Settings of the `compute` section.
#[derive(Debug, PartialEq)]
pub(crate) struct ComputeProperties {
    /// The `compute/zone` setting: the default compute zone.
    zone: Option<String>,
    /// The `compute/region` setting: the default compute region.
    region: Option<String>,
}

/// Configuration properties: the settings a profile holds.
#[derive(Debug, PartialEq)]
pub struct Properties {
    /// The `core` section, absent when none of its fields is set.
    core: Option<CoreProperties>,
    /// The `compute` section, absent when none of its fields is set.
    compute: Option<ComputeProperties>,
}

impl View for CoreProperties {
    type V = CoreView;

    closed spec fn view(&self) -> CoreView {
        CoreView { project: opt_view(self.project), account: opt_view(self.account) }
    }
}

impl View for ComputeProperties {
    type V = ComputeView;

    closed spec fn view(&self) -> ComputeView {
        ComputeView { zone: opt_view(self.zone), region: opt_view(self.region) }
    }
}

impl View for Properties {
    type V = PropsView;

    closed spec fn view(&self) -> PropsView {
        PropsView {
            core: match self.core {
                Some(ref c) => Some(c@),
                None => None,
            },
            compute: match self.compute {
                Some(ref c) => Some(c@),
                None => None,
            },
        }
    }
}

impl Default for CoreProperties {
    /// A `core` section with neither field set.
    fn default() -> (r: Self)
        ensures
            r@ == (CoreView { project: None, account: None }),
    {
        Self { account: None, project: None }
    }
}

impl Default for ComputeProperties {
    /// A `compute` section with neither field set.
    fn default() -> (r: Self)
        ensures
            r@ == (ComputeView { zone: None, region: None }),
    {
        Self { zone: None, region: None }
    }
}

/// Duplicates an optional owned string.
fn clone_opt(o: &Option<String>) -> (r: Option<String>)
    ensures
        r == *o,
{
    match o {
        Some(s) => Some(s.clone()),
        None => None,
    }
}

impl Clone for CoreProperties {
    fn clone(&self) -> (r: Self)
        ensures
            r@ == self@,
    {
        Self { project: clone_opt(&self.project), account: clone_opt(&self.account) }
    }
}

impl Clone for ComputeProperties {
    fn clone(&self) -> (r: Self)
        ensures
            r@ == self@,
    {
        Self { zone: clone_opt(&self.zone), region: clone_opt(&self.region) }
    }
}

impl Clone for Properties {
    fn clone(&self) -> (r: Self)
        ensures
            r@ == self@,
    {
        Self {
            core: match &self.core {
                Some(c) => Some(c.clone()),
                None => None,
            },
            compute: match &self.compute {
                Some(c) => Some(c.clone()),
                None => None,
            },
        }
    }
}

impl Properties {
    /// The `core/project` setting, if set.
    pub fn project(&self) -> (r: Option<&String>)
        ensures
            match self@.core {
                Some(c) => opt_ref_view(r) == c.project,
                None => r is None,
            },
    {
        match &self.core {
            Some(c) => c.project.as_ref(),
            None => None,
        }
    }

    /// The `core/account` setting, if set.
    pub fn account(&self) -> (r: Option<&String>)
        ensures
            match self@.core {
                Some(c) => opt_ref_view(r) == c.account,
                None => r is None,
            },
    {
        match &self.core {
            Some(c) => c.account.as_ref(),
            None => None,
        }
    }

    /// The `compute/zone` setting, if set.
    pub fn zone(&self) -> (r: Option<&String>)
        ensures
            match self@.compute {
                Some(c) => opt_ref_view(r) == c.zone,
                None => r is None,
            },
    {
        match &self.compute {
            Some(c) => c.zone.as_ref(),
            None => None,
        }
    }

    /// The `compute/region` setting, if set.
    pub fn region(&self) -> (r: Option<&String>)
        ensures
            match self@.compute {
                Some(c) => opt_ref_view(r) == c.region,
                None => r is None,
            },
    {
        match &self.compute {
            Some(c) => c.region.as_ref(),
            None => None,
        }
    }
}

impl Properties {
    /// Serialize to the key-file text: only present sections are
    /// written, set fields appear in declaration order, and lines end
    /// with a line feed on every host platform.
    pub fn serialize(&self) -> (r: String)
        ensures
            r@ == spec_serialize(self@),
    {
        let mut out = String::new();
        match &self.core {
            Some(c) => {
                out.append("[core]\n");
                push_kv(&mut out, "project", &c.project);
                push_kv(&mut out, "account", &c.account);
                proof {
                    assert(out@ =~= core_block(c@));
                }
            },
            None => {},
        }
        match &self.compute {
            Some(k) => {
                if self.core.is_some() {
                    out.append("\n");
                }
                let ghost sep = out@;
                out.append("[compute]\n");
                push_kv(&mut out, "zone", &k.zone);
                push_kv(&mut out, "region", &k.region);
                proof {
                    assert(out@ =~= sep + compute_block(k@));
                    assert(out@ =~= spec_serialize(self@));
                }
            },
            None => {},
        }
        proof {
            assert(out@ =~= spec_serialize(self@));
        }
        out
    }

    /// Parse key-file text. Unknown sections and keys are tolerated;
    /// a line that is neither blank, a section header, nor a
    /// `key = value` pair fails with `SerializationError` carrying
    /// that line.
    pub fn deserialize(input: &str) -> (r: Result<Properties, Error>)
        ensures
            match r {
                Ok(p) => spec_parse(input@) == Some(p@),
                Err(e) => spec_parse(input@) is None && e@ matches ErrorView::SerializationError(
                    _,
                ),
            },
    {
        let lines = split_lines_exec(input);
        let ghost all = views_of(lines@);
        let mut acc = ParseAcc {
            section: SectionKind::Preamble,
            core_present: false,
            compute_present: false,
            project: None,
            account: None,
            zone: None,
            region: None,
        };
        let mut idx: usize = 0;
        proof {
            assert(acc@ == init_state());
            assert(all.take(0) =~~= Seq::<Seq<char>>::empty());
        }
        while idx < lines.len()
            invariant
                idx as int <= lines@.len(),
                all == views_of(lines@),
                all == split_lines(input@),
                run_lines(all.take(idx as int), init_state()) == Some(acc@),
            decreases lines@.len() - idx as int,
        {
            let ghost pre = acc@;
            proof {
                assert(views_of(lines@)[idx as int] == lines@[idx as int]@);
            }
            let ok = apply_line(&mut acc, lines[idx].as_str());
            if !ok {
                proof {
                    lemma_run_concat(all.take(idx as int), all.skip(idx as int), init_state());
                    assert(all.take(idx as int) + all.skip(idx as int) =~~= all);
                    assert(all.skip(idx as int)[0] == all[idx as int]);
                    assert(run_lines(all.skip(idx as int), pre) is None);
                }
                return Err(Error::SerializationError(lines[idx].clone()));
            }
            proof {
                let single = seq![all[idx as int]];
                lemma_run_concat(all.take(idx as int), single, init_state());
                assert(all.take(idx as int) + single =~~= all.take(idx as int + 1));
                assert(single[0] == all[idx as int]);
                assert(step_line(pre, all[idx as int]) == Some(acc@));
                assert(single.drop_first() =~~= Seq::<Seq<char>>::empty());
                assert(run_lines(single.drop_first(), acc@) == Some(acc@));
                assert(run_lines(single, pre) == Some(acc@));
            }
            idx = idx + 1;
        }
        let ghost st = acc@;
        proof {
            assert(all.take(lines@.len() as int) =~~= all);
        }
        let ParseAcc { core_present, compute_present, project, account, zone, region, .. } = acc;
        let props = Properties {
            core: if core_present {
                Some(CoreProperties { project, account })
            } else {
                None
            },
            compute: if compute_present {
                Some(ComputeProperties { zone, region })
            } else {
                None
            },
        };
        proof {
            assert(props@ == st.props);
        }
        Ok(props)
    }
}

/// Append one `key = value` line to `out`, or nothing when the field
/// is unset, as [`kv_line`] specifies.
fn push_kv(out: &mut String, key: &str, v: &Option<String>)
    ensures
        final(out)@ == old(out)@ + kv_line(key@, opt_view(*v)),
{
    match v {
        Some(s) => {
            out.append(key);
            out.append(" = ");
            out.append(s.as_str());
            out.append("\n");
            proof {
                assert(out@ =~= old(out)@ + kv_line(key@, opt_view(*v)));
            }
        },
        None => {
            proof {
                assert(old(out)@ + kv_line(key@, opt_view(*v)) =~= old(out)@);
            }
        },
    }
}

/// The executable parser's accumulator: the current section, which
/// sections have been materialized, and the fields assigned so far.
struct ParseAcc {
    section: SectionKind,
    core_present: bool,
    compute_present: bool,
    project: Option<String>,
    account: Option<String>,
    zone: Option<String>,
    region: Option<String>,
}

impl View for ParseAcc {
    type V = ParseState;

    closed spec fn view(&self) -> ParseState {
        ParseState {
            section: self.section,
            props: PropsView {
                core: if self.core_present {
                    Some(
                        CoreView {
                            project: opt_view(self.project),
                            account: opt_view(self.account),
                        },
                    )
                } else {
                    None
                },
                compute: if self.compute_present {
                    Some(ComputeView { zone: opt_view(self.zone), region: opt_view(self.region) })
                } else {
                    None
                },
            },
        }
    }
}

impl ParseAcc {
    /// Materialize the `core` section if it is absent.
    fn ensure_core(&mut self)
        ensures
            final(self)@.section == old(self)@.section,
            final(self)@.props == materialize_core(old(self)@.props),
    {
        if !self.core_present {
            self.core_present = true;
            self.project = None;
            self.account = None;
        }
    }

    /// Materialize the `compute` section if it is absent.
    fn ensure_compute(&mut self)
        ensures
            final(self)@.section == old(self)@.section,
            final(self)@.props == materialize_compute(old(self)@.props),
    {
        if !self.compute_present {
            self.compute_present = true;
            self.zone = None;
            self.region = None;
        }
    }
}

/// Apply one line to the accumulator, as [`step_line`] specifies;
/// `false` means the line is malformed (the accumulator is then left
/// as it was).
fn apply_line(acc: &mut ParseAcc, line: &str) -> (ok: bool)
    ensures
        ok == (step_line(old(acc)@, line@) is Some),
        step_line(old(acc)@, line@) matches Some(st) ==> final(acc)@ == st,
        !ok ==> final(acc)@ == old(acc)@,
{
    let n = line.unicode_len();
    if n == 0 {
        return true;
    }
    let c0 = line.get_char(0);
    if c0 == '[' {
        if n >= 2 && line.get_char(n - 1) == ']' {
            let name = line.substring_char(1, n - 1);
            if str_eq(name, "core") {
                acc.ensure_core();
                acc.section = SectionKind::CoreSection;
            } else if str_eq(name, "compute") {
                acc.ensure_compute();
                acc.section = SectionKind::ComputeSection;
            } else {
                acc.section = SectionKind::UnknownSection;
            }
            true
        } else {
            false
        }
    } else {
        let e = find_eq(line);
        if e < n {
            let kend = if e > 0 && line.get_char(e - 1) == ' ' {
                e - 1
            } else {
                e
            };
            let key = line.substring_char(0, kend);
            proof {
                assert(line@.take(e as int) =~= line@.subrange(0, e as int));
                if e > 0 && line@[e as int - 1] == ' ' {
                    assert(line@.take(e as int).drop_last() =~= line@.subrange(0, e as int - 1));
                }
                assert(key@ == kv_key(line@));
            }
            let vstart = if e + 1 < n && line.get_char(e + 1) == ' ' {
                e + 2
            } else {
                e + 1
            };
            let value = line.substring_char(vstart, n);
            proof {
                assert(line@.skip(e as int + 1) =~= line@.subrange(e as int + 1, n as int));
                if e + 1 < n && line@[e as int + 1] == ' ' {
                    assert(line@.skip(e as int + 1).drop_first() =~= line@.subrange(
                        e as int + 2,
                        n as int,
                    ));
                }
                assert(value@ == kv_value(line@));
            }
            if value.unicode_len() == 0 {
                return true;
            }
            match acc.section {
                SectionKind::CoreSection => {
                    if str_eq(key, "project") {
                        acc.ensure_core();
                        acc.project = Some(value.to_owned());
                    } else if str_eq(key, "account") {
                        acc.ensure_core();
                        acc.account = Some(value.to_owned());
                    }
                },
                SectionKind::ComputeSection => {
                    if str_eq(key, "zone") {
                        acc.ensure_compute();
                        acc.zone = Some(value.to_owned());
                    } else if str_eq(key, "region") {
                        acc.ensure_compute();
                        acc.region = Some(value.to_owned());
                    }
                },
                _ => {},
            }
            true
        } else {
            false
        }
    }
}

/// The view of an optional borrowed string.
pub open spec fn opt_ref_view(o: Option<&String>) -> Option<Seq<char>> {
    match o {
        Some(s) => Some(s@),
        None => None,
    }
}

/// Mathematical image of a [`PropertiesBuilder`]: the four field
/// assignments collected so far.
pub ghost struct BuilderView {
    pub project: Option<Seq<char>>,
    pub account: Option<Seq<char>>,
    pub zone: Option<Seq<char>>,
    pub region: Option<Seq<char>>,
}

/// The properties value a builder state produces: a section is
/// synthesized exactly when one of its fields was assigned.
pub open spec fn built_props(b: BuilderView) -> PropsView {
    PropsView {
        core: if b.project is Some || b.account is Some {
            Some(CoreView { project: b.project, account: b.account })
        } else {
            None
        },
        compute: if b.zone is Some || b.region is Some {
            Some(ComputeView { zone: b.zone, region: b.region })
        } else {
            None
        },
    }
}

/// An accumulator of field assignments that produces a [`Properties`]
/// value; sections are materialized lazily.
#[derive(Debug)]
pub struct PropertiesBuilder {
    /// The `core/project` setting.
    project: Option<String>,
    /// The `core/account` setting.
    account: Option<String>,
    /// The `compute/zone` setting.
    zone: Option<String>,
    /// The `compute/region` setting.
    region: Option<String>,
}

impl View for PropertiesBuilder {
    type V = BuilderView;

    closed spec fn view(&self) -> BuilderView {
        BuilderView {
            project: opt_view(self.project),
            account: opt_view(self.account),
            zone: opt_view(self.zone),
            region: opt_view(self.region),
        }
    }
}

impl Default for PropertiesBuilder {
    /// A builder with no field assigned.
    fn default() -> (r: Self)
        ensures
            r@ == (BuilderView { project: None, account: None, zone: None, region: None }),
    {
        Self { project: None, account: None, zone: None, region: None }
    }
}

impl PropertiesBuilder {
    /// Build the properties: each section is present exactly when one
    /// of its fields was assigned, and carries the assigned values.
    pub fn build(&self) -> (r: Properties)
        ensures
            r@ == built_props(self@),
    {
        let core = if self.project.is_some() || self.account.is_some() {
            Some(
                CoreProperties {
                    project: clone_opt(&self.project),
                    account: clone_opt(&self.account),
                },
            )
        } else {
            None
        };

        let compute = if self.zone.is_some() || self.region.is_some() {
            Some(
                ComputeProperties { zone: clone_opt(&self.zone), region: clone_opt(&self.region) },
            )
        } else {
            None
        };

        Properties { core, compute }
    }

    /// Set the project property.
    pub fn with_project(&mut self, project: &str)
        ensures
            final(self)@ == (BuilderView { project: Some(project@), ..old(self)@ }),
    {
        self.project = Some(project.to_owned());
    }

    /// Set the account property.
    pub fn with_account(&mut self, account: &str)
        ensures
            final(self)@ == (BuilderView { account: Some(account@), ..old(self)@ }),
    {
        self.account = Some(account.to_owned());
    }

    /// Set the zone property.
    pub fn with_zone(&mut self, zone: &str)
        ensures
            final(self)@ == (BuilderView { zone: Some(zone@), ..old(self)@ }),
    {
        self.zone = Some(zone.to_owned());
    }

    /// Set the region property.
    pub fn with_region(&mut self, region: &str)
        ensures
            final(self)@ == (BuilderView { region: Some(region@), ..old(self)@ }),
    {
        self.region = Some(region.to_owned());
    }
}

} // verus!
