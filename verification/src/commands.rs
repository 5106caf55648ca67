//! Custom command definitions: the cross-crate specification types, loading
//! a command from its markdown frontmatter, and merging user and project
//! commands with project precedence, sorted by id.

use vstd::prelude::*;

pub use crate::ids::normalize_id;

verus! {

use crate::chars::lex_lt;
use crate::chars::lex_cmp;
use crate::chars::str_to_chars;
use crate::chars::chars_to_string;
use crate::chars::trim_ws;
use crate::chars::trim_chars;
use crate::chars::all_ascii;
use crate::chars::ascii_lower;
use crate::chars::lower_of;
use crate::exec_format::lines_of;
use crate::exec_format::lines_of_exec;
use crate::exec_format::join_nl_exec;
use crate::agents::first_fm_close;
use crate::agents::has_frontmatter_start;
use crate::agents::agent_body_text;
use crate::ids::normalize_spec;
use crate::ids::well_formed_id;

/// Stable identifier for a custom command: normalized lowercase kebab-case.
#[derive(Debug, Clone, PartialEq, Eq)]
pub struct CustomCommandId(pub String);

/// Visibility of a custom command in UIs.
#[derive(Debug, Clone, Copy, PartialEq, Eq, Structural)]
pub enum CustomCommandVisibility {
    Popup,
    Hidden,
}

impl Default for CustomCommandVisibility {
    /// Commands are shown in popups unless hidden explicitly.
    fn default() -> (r: Self)
        ensures
            r == CustomCommandVisibility::Popup,
    {
        CustomCommandVisibility::Popup
    }
}

/// Declaration of an argument accepted by a custom command.
#[derive(Debug, Clone, PartialEq)]
pub struct CustomCommandArgSpec {
    pub name: String,
    pub required: bool,
    pub description: Option<String>,
}

/// The cross-boundary specification of a custom command.
#[derive(Debug, Clone, PartialEq)]
pub struct CustomCommandSpec {
    pub id: CustomCommandId,
    pub name: String,
    pub aliases: Vec<String>,
    pub description: String,
    pub template: String,
    pub args: Vec<CustomCommandArgSpec>,
    pub tags: Vec<String>,
    pub version: Option<String>,
    pub disabled: bool,
    pub visibility: CustomCommandVisibility,
}

/// Where a command definition was loaded from (the directory path).
#[derive(Debug, Clone, PartialEq, Eq)]
pub enum CommandSource {
    User(String),
    Project(String),
}

/// Fully loaded custom command with source metadata.
#[derive(Debug, Clone, PartialEq)]
pub struct CustomCommand {
    pub spec: CustomCommandSpec,
    pub path: String,
    pub source: CommandSource,
}

impl CustomCommand {
    /// The command's stable id text.
    pub fn id(&self) -> (r: &str)
        ensures
            r@ == self.spec.id.0@,
    {
        self.spec.id.0.as_str()
    }
}

/// The string-list field is absent, or a sequence whose every element is a
/// string.
pub open spec fn str_list_field_ok(fmt: Seq<char>, key: Seq<char>) -> bool {
    ||| !crate::yaml::yaml_has_field_of(fmt, key)
    ||| (crate::yaml::yaml_str_list_of(fmt, key) matches Some(es) && (forall|k: int|
        0 <= k < es.len() ==> (#[trigger] es[k]) is Some))
}

/// All the conditions under which loading a command file must succeed:
/// well-formed delimiters, parseable frontmatter with a non-blank string
/// description and well-formed aliases, tags and args, and a non-blank body.
pub open spec fn command_file_ok(lines: Seq<Seq<char>>) -> bool {
    &&& crate::agents::has_frontmatter_start(lines)
    &&& crate::agents::first_fm_close(lines, 1) != -1
    &&& crate::yaml::yaml_parses(crate::agents::frontmatter_text(lines))
    &&& (crate::yaml::yaml_str_field_of(crate::agents::frontmatter_text(lines), "description"@)
        matches Some(d) && trim_ws(d).len() > 0)
    &&& str_list_field_ok(crate::agents::frontmatter_text(lines), "aliases"@)
    &&& str_list_field_ok(crate::agents::frontmatter_text(lines), "tags"@)
    &&& (!crate::yaml::yaml_has_field_of(crate::agents::frontmatter_text(lines), "args"@)
        || crate::yaml::yaml_args_of(crate::agents::frontmatter_text(lines)) is Some)
    &&& trim_ws(agent_body_text(lines)).len() > 0
}

/// Load a command from a markdown file's stem and contents: `---`-delimited
/// YAML frontmatter with a required non-blank description, then a non-empty
/// template body. The id is the normalized filename stem; a differing
/// frontmatter name is ignored.
#[verifier::loop_isolation(false)]
#[verifier::rlimit(60)]
pub fn command_from_markdown(filename_stem: &str, content: &str) -> (r: Result<
    CustomCommandSpec,
    String,
>)
    ensures
        !has_frontmatter_start(lines_of(content@)) ==> r is Err,
        command_file_ok(lines_of(content@)) ==> r is Ok,
        r matches Ok(spec) ==> {
            let lines = lines_of(content@);
            let fmt = crate::agents::frontmatter_text(lines);
            &&& spec.id.0@ == normalize_spec(lower_of(filename_stem@))
            &&& (all_ascii(filename_stem@) ==> spec.id.0@ == normalize_spec(
                ascii_lower(filename_stem@),
            ))
            &&& well_formed_id(spec.id.0@)
            &&& spec.name@ == filename_stem@
            &&& spec.template@ == trim_ws(agent_body_text(lines))
            &&& spec.template@.len() > 0
            &&& crate::yaml::yaml_str_field_of(fmt, "description"@) == Some(spec.description@)
            &&& trim_ws(spec.description@).len() > 0
            &&& (spec.aliases@.len() > 0 ==> (crate::yaml::yaml_str_list_of(fmt, "aliases"@)
                matches Some(es) && es.len() == spec.aliases@.len() && (forall|k: int|
                0 <= k < es.len() ==> #[trigger] es[k] == Some(spec.aliases@[k]@))))
            &&& (spec.tags@.len() > 0 ==> (crate::yaml::yaml_str_list_of(fmt, "tags"@)
                matches Some(es) && es.len() == spec.tags@.len() && (forall|k: int|
                0 <= k < es.len() ==> #[trigger] es[k] == Some(spec.tags@[k]@))))
            &&& (spec.version matches Some(vs) ==> crate::yaml::yaml_str_field_of(
                fmt,
                "version"@,
            ) == Some(vs@))
            &&& (spec.version is None ==> crate::yaml::yaml_str_field_of(fmt, "version"@) is None)
            &&& spec.disabled == (crate::yaml::yaml_bool_field_of(fmt, "disabled"@) == Some(true))
            &&& spec.visibility == (if crate::yaml::yaml_str_field_of(fmt, "visibility"@) == Some(
                "hidden"@,
            ) {
                CustomCommandVisibility::Hidden
            } else {
                CustomCommandVisibility::Popup
            })
            &&& (spec.args@.len() > 0 ==> (crate::yaml::yaml_args_of(fmt) matches Some(es)
                && es.len() == spec.args@.len() && (forall|k: int|
                0 <= k < es.len() ==> #[trigger] es[k] == (
                    spec.args@[k].name@,
                    spec.args@[k].required,
                    (match spec.args@[k].description {
                        Some(d) => Some(d@),
                        None => None::<Seq<char>>,
                    }),
                ))))
        },
{
    let cs = str_to_chars(content);
    let lines = lines_of_exec(&cs);
    let ghost lv = lines_of(content@);
    proof {
        assert(lines.deep_view().len() == lines@.len());
    }
    let missing_start = if lines.len() == 0 {
        true
    } else {
        let first = trim_chars(&lines[0]);
        let dashes = str_to_chars("---");
        proof {
            assert(lines.deep_view()[0] == lines@[0]@);
        }
        let c = lex_cmp(&first, &dashes);
        c != 1
    };
    if missing_start {
        return Err(String::from_str("missing YAML frontmatter (must start with '---')"));
    }
    let mut close: usize = 1;
    while close < lines.len() && !is_dashes(&lines, close)
        invariant
            1 <= close <= lines@.len(),
            lines.deep_view() == lv,
            forall|m: int| 1 <= m < close ==> trim_ws(lv[m]) != "---"@,
        decreases lines@.len() - close,
    {
        close = close + 1;
    }
    proof {
        if close < lines@.len() {
            crate::agents::lemma_fm_close_at_pub(lv, close as int);
        } else {
            crate::agents::lemma_fm_close_none_pub(lv);
        }
    }
    if close >= lines.len() {
        return Err(String::from_str("missing frontmatter closing '---'"));
    }
    let mut fm: Vec<char> = Vec::new();
    let mut t: usize = 1;
    proof {
        assert(fm@ =~= crate::agents::fm_text(lv, 1, 1));
    }
    while t < close
        invariant
            1 <= t <= close < lines@.len(),
            lines.deep_view() == lv,
            fm@ == crate::agents::fm_text(lv, 1, t as int),
        decreases close - t,
    {
        let lcs = crate::chars::vec_subrange(&lines[t], 0, lines[t].len());
        let ghost fm0 = fm@;
        crate::template::push_all(&mut fm, &lcs);
        fm.push('\n');
        proof {
            assert(lcs@ =~= lv[t as int]);
            assert(fm@ =~= (fm0 + lv[t as int]).push('\n'));
            assert(fm@ =~= fm0 + lv[t as int] + seq!['\n']);
        }
        t = t + 1;
    }
    let fm_s = chars_to_string(&fm);
    let ghost fmt = crate::agents::frontmatter_text(lv);
    proof {
        assert(fm_s@ == fmt);
    }

    let body_joined = join_nl_exec(&lines, close + 1, lines.len());
    proof {
        assert(lines.deep_view().subrange(close + 1, lines@.len() as int) =~~= lv.skip(close + 1));
    }
    let body_trimmed = trim_chars(&body_joined);
    let template = chars_to_string(&body_trimmed);

    let description = match crate::yaml::yaml_str_field(fm_s.as_str(), "description") {
        Err(e) => {
            let mut msg = String::from_str("failed to parse YAML frontmatter: ");
            msg.append(e.as_str());
            return Err(msg);
        },
        Ok(None) => {
            return Err(String::from_str("missing field `description`"));
        },
        Ok(Some(d)) => d,
    };
    let dch = str_to_chars(description.as_str());
    let dtr = trim_chars(&dch);
    if dtr.len() == 0 {
        return Err(String::from_str("command must have a non-empty description"));
    }
    if template.as_str().is_empty() {
        return Err(String::from_str("command must have a non-empty template body"));
    }
    proof {
        crate::chars::lemma_utf8_len_ge_char_count(template@);
    }

    let aliases = match read_str_list(fm_s.as_str(), "aliases") {
        Ok(xs) => xs,
        Err(msg) => {
            return Err(msg);
        },
    };
    let tags = match read_str_list(fm_s.as_str(), "tags") {
        Ok(xs) => xs,
        Err(msg) => {
            return Err(msg);
        },
    };
    let version = match crate::yaml::yaml_str_field(fm_s.as_str(), "version") {
        Ok(v) => v,
        Err(_) => {
            proof {
                assert(false);
            }
            None
        },
    };
    let disabled = match crate::yaml::yaml_bool_field(fm_s.as_str(), "disabled") {
        Ok(Some(b)) => b,
        Ok(None) => false,
        Err(_) => {
            proof {
                assert(false);
            }
            false
        },
    };
    let visibility = match crate::yaml::yaml_str_field(fm_s.as_str(), "visibility") {
        Ok(Some(s)) => {
            if crate::items::string_is(&s, "hidden") {
                CustomCommandVisibility::Hidden
            } else {
                CustomCommandVisibility::Popup
            }
        },
        Ok(None) => CustomCommandVisibility::Popup,
        Err(_) => {
            proof {
                assert(false);
            }
            CustomCommandVisibility::Popup
        },
    };
    let has_args = match crate::yaml::yaml_has_field(fm_s.as_str(), "args") {
        Ok(b) => b,
        Err(_) => {
            proof {
                assert(false);
            }
            false
        },
    };
    let args: Vec<CustomCommandArgSpec> = if !has_args {
        Vec::new()
    } else {
        match crate::yaml::yaml_args_field(fm_s.as_str()) {
            Ok(Some(v)) => v,
            Ok(None) => {
                return Err(String::from_str("`args` must be a list of argument entries"));
            },
            Err(_) => {
                proof {
                    assert(false);
                }
                Vec::new()
            },
        }
    };

    let id = crate::ids::normalize_id(filename_stem);
    Ok(
        CustomCommandSpec {
            id: CustomCommandId(id),
            name: String::from_str(filename_stem),
            aliases,
            description,
            template,
            args,
            tags,
            version,
            disabled,
            visibility,
        },
    )
}

/// Read an optional list-of-strings field; absent means empty.
#[verifier::loop_isolation(false)]
fn read_str_list(fm: &str, key: &str) -> (r: Result<Vec<String>, String>)
    requires
        crate::yaml::yaml_parses(fm@),
    ensures
        r matches Ok(xs) ==> str_list_field_ok(fm@, key@) && (xs@.len() > 0 ==> (
        crate::yaml::yaml_str_list_of(fm@, key@) matches Some(es) && es.len() == xs@.len() && (
        forall|k: int| 0 <= k < es.len() ==> #[trigger] es[k] == Some(xs@[k]@)))),
        r is Err ==> !str_list_field_ok(fm@, key@),
{
    let has = match crate::yaml::yaml_has_field(fm, key) {
        Ok(b) => b,
        Err(_) => {
            proof {
                assert(false);
            }
            false
        },
    };
    if !(has) {
        let xs: Vec<String> = Vec::new();
        return Ok(xs);
    }
    let entries = match crate::yaml::yaml_str_list_field(fm, key) {
        Ok(Some(entries)) => entries,
        Ok(None) => {
            let mut msg = String::from_str("`");
            msg.append(key);
            msg.append("` must be a list");
            return Err(msg);
        },
        Err(_) => {
            proof {
                assert(false);
            }
            Vec::new()
        },
    };
    let ghost es = entries.deep_view();
    let mut out: Vec<String> = Vec::new();
    let mut q: usize = 0;
    while q < entries.len()
        invariant
            q <= entries@.len(),
            entries.deep_view() == es,
            out@.len() == q,
            forall|w: int| 0 <= w < q ==> #[trigger] es[w] == Some(out@[w]@),
        decreases entries.len() - q,
    {
        proof {
            assert(es[q as int] == (match entries@[q as int] {
                Some(s) => Some(s@),
                None => None::<Seq<char>>,
            }));
        }
        match &entries[q] {
            Some(s) => {
                out.push(s.clone());
            },
            None => {
                proof {
                    assert(es[q as int] is None);
                }
                let mut msg = String::from_str("`");
                msg.append(key);
                msg.append("` must be a list of strings");
                return Err(msg);
            },
        }
        q = q + 1;
    }
    Ok(out)
}

/// The line at `i` trims to `---`.
fn is_dashes(lines: &Vec<Vec<char>>, i: usize) -> (r: bool)
    requires
        i < lines@.len(),
    ensures
        r == (trim_ws(lines.deep_view()[i as int]) == "---"@),
{
    let trimmed = trim_chars(&lines[i]);
    let dashes = str_to_chars("---");
    proof {
        assert(lines.deep_view()[i as int] == lines@[i as int]@);
    }
    let c = lex_cmp(&trimmed, &dashes);
    c == 1
}

/// The ids of a command list, in order.
pub open spec fn command_ids(cmds: Seq<CustomCommand>) -> Seq<Seq<char>> {
    Seq::new(cmds.len(), |i: int| cmds[i].spec.id.0@)
}

pub open spec fn ids_strictly_sorted(cmds: Seq<CustomCommand>) -> bool {
    forall|i: int, j: int|
        0 <= i < j < cmds.len() ==> lex_lt(
            #[trigger] cmds[i].spec.id.0@,
            #[trigger] cmds[j].spec.id.0@,
        )
}

pub open spec fn has_command_id(cmds: Seq<CustomCommand>, id: Seq<char>) -> bool {
    exists|i: int| 0 <= i < cmds.len() && (#[trigger] cmds[i]).spec.id.0@ == id
}

/// Insert a command into an id-sorted list, replacing any earlier command
/// with the same id: later (project) definitions override earlier (user)
/// ones.
pub fn insert_command(cmds: &mut Vec<CustomCommand>, cmd: CustomCommand)
    requires
        ids_strictly_sorted(old(cmds)@),
    ensures
        ids_strictly_sorted(final(cmds)@),
        has_command_id(final(cmds)@, cmd.spec.id.0@),
        exists|i: int| 0 <= i < final(cmds)@.len() && #[trigger] final(cmds)@[i] == cmd,
        forall|j: int|
            0 <= j < final(cmds)@.len() && (#[trigger] final(cmds)@[j]).spec.id.0@
                != cmd.spec.id.0@ ==> exists|k: int|
                0 <= k < old(cmds)@.len() && old(cmds)@[k] == final(cmds)@[j],
        forall|k: int|
            0 <= k < old(cmds)@.len() && (#[trigger] old(cmds)@[k]).spec.id.0@ != cmd.spec.id.0@
                ==> exists|j: int| 0 <= j < final(cmds)@.len() && final(cmds)@[j] == old(cmds)@[k],
{
    let nv = str_to_chars(cmd.spec.id.0.as_str());
    let mut i: usize = 0;
    while i < cmds.len() && cmd_id_lt(cmds, i, &nv)
        invariant
            i <= cmds@.len(),
            cmds@ == old(cmds)@,
            nv@ == cmd.spec.id.0@,
            forall|k: int| 0 <= k < i ==> lex_lt((#[trigger] cmds@[k]).spec.id.0@, cmd.spec.id.0@),
        decreases cmds@.len() - i,
    {
        i = i + 1;
    }
    let ghost s0 = cmds@;
    if i < cmds.len() {
        let c = lex_cmp(&str_to_chars(cmds[i].spec.id.0.as_str()), &nv);
        if c == 1 {
            let _old = cmds.remove(i);
            cmds.insert(i, cmd);
            proof {
                assert(cmds@[i as int] == cmd);
                assert(has_command_id(cmds@, cmd.spec.id.0@));
                assert(forall|j: int| 0 <= j < cmds@.len() && j != i ==> #[trigger] cmds@[j] == s0[j]);
                assert forall|a: int, b: int|
                    0 <= a < b < cmds@.len() implies lex_lt(
                    (#[trigger] cmds@[a]).spec.id.0@,
                    (#[trigger] cmds@[b]).spec.id.0@,
                ) by {
                    assert(lex_lt(s0[a].spec.id.0@, s0[b].spec.id.0@));
                }
                assert forall|j: int|
                    0 <= j < cmds@.len() && (#[trigger] cmds@[j]).spec.id.0@ != cmd.spec.id.0@
                    implies exists|k: int| 0 <= k < s0.len() && s0[k] == cmds@[j] by {
                    assert(j != i);
                    assert(s0[j] == cmds@[j]);
                }
                assert forall|k: int|
                    0 <= k < s0.len() && (#[trigger] s0[k]).spec.id.0@ != cmd.spec.id.0@ implies
                    exists|j: int| 0 <= j < cmds@.len() && cmds@[j] == s0[k] by {
                    assert(k != i);
                    assert(cmds@[k] == s0[k]);
                }
            }
            return ;
        }
    }
    cmds.insert(i, cmd);
    proof {
        assert forall|a: int, b: int|
            0 <= a < b < cmds@.len() implies lex_lt(
            (#[trigger] cmds@[a]).spec.id.0@,
            (#[trigger] cmds@[b]).spec.id.0@,
        ) by {
            crate::chars::lemma_lex_trichotomy(s0[i as int].spec.id.0@, cmd.spec.id.0@);
            if a < i && b > i {
                assert(cmds@[a] == s0[a]);
                assert(cmds@[b] == s0[b - 1]);
                if b - 1 == i {
                    crate::chars::lemma_lex_lt_trans(
                        s0[a].spec.id.0@,
                        cmd.spec.id.0@,
                        cmds@[b].spec.id.0@,
                    );
                }
            } else if a == i && b > i {
                assert(cmds@[b] == s0[b - 1]);
                if b - 1 > i {
                    crate::chars::lemma_lex_lt_trans(
                        cmd.spec.id.0@,
                        s0[i as int].spec.id.0@,
                        s0[b - 1].spec.id.0@,
                    );
                }
            } else if a < i && b == i {
                assert(cmds@[a] == s0[a]);
            } else if b < i {
                assert(cmds@[a] == s0[a] && cmds@[b] == s0[b]);
            } else if a > i {
                assert(cmds@[a] == s0[a - 1] && cmds@[b] == s0[b - 1]);
            }
        }
        assert(cmds@[i as int] == cmd);
        assert forall|j: int|
            0 <= j < cmds@.len() && (#[trigger] cmds@[j]).spec.id.0@ != cmd.spec.id.0@ implies
            exists|k: int| 0 <= k < s0.len() && s0[k] == cmds@[j] by {
            if j < i {
                assert(s0[j] == cmds@[j]);
            } else if j > i {
                assert(s0[j - 1] == cmds@[j]);
            }
        }
        assert forall|k: int|
            0 <= k < s0.len() && (#[trigger] s0[k]).spec.id.0@ != cmd.spec.id.0@ implies exists|
            j: int,
        | 0 <= j < cmds@.len() && cmds@[j] == s0[k] by {
            if k < i {
                assert(cmds@[k] == s0[k]);
            } else {
                assert(cmds@[k + 1] == s0[k]);
            }
        }
    }
}

/// The id of the command at `i` sorts strictly before `nv`.
fn cmd_id_lt(cmds: &Vec<CustomCommand>, i: usize, nv: &Vec<char>) -> (r: bool)
    requires
        i < cmds@.len(),
    ensures
        r == lex_lt(cmds@[i as int].spec.id.0@, nv@),
{
    let c = lex_cmp(&str_to_chars(cmds[i].spec.id.0.as_str()), nv);
    c == 0
}

/// Merge user and project commands: project definitions override user ones
/// by id, and the result is ordered by id for determinism. Which definition
/// wins per id follows from `insert_command`'s contract at each step; the
/// merged list carries every project id.
/// Merge the user and project command sets: ids are unique and sorted in
/// the result, and every project id is present; each insert carries the
/// replacement of a clashing id, so later definitions win.
pub fn merge_commands(user: Vec<CustomCommand>, project: Vec<CustomCommand>) -> (r: Vec<
    CustomCommand,
>)
    ensures
        ids_strictly_sorted(r@),
        forall|k: int|
            0 <= k < project@.len() ==> has_command_id(r@, (#[trigger] project@[k]).spec.id.0@),
{
    let mut out: Vec<CustomCommand> = Vec::new();
    let mut rest = user;
    while rest.len() > 0
        invariant
            ids_strictly_sorted(out@),
        decreases rest@.len(),
    {
        let cmd = rest.remove(0);
        insert_command(&mut out, cmd);
    }
    let mut prest = project;
    let ghost pall = prest@;
    let total = prest.len();
    while prest.len() > 0
        invariant
            prest@.len() <= total,
            pall.len() == total,
            prest@ == pall.skip(total - prest@.len()),
            ids_strictly_sorted(out@),
            forall|k: int|
                0 <= k < total - prest@.len() ==> has_command_id(
                    out@,
                    (#[trigger] pall[k]).spec.id.0@,
                ),
        decreases prest@.len(),
    {
        let ghost i = total - prest@.len();
        let cmd = prest.remove(0);
        proof {
            assert(cmd == pall[i]);
            assert(prest@ =~= pall.skip(i + 1));
        }
        let ghost out0 = out@;
        insert_command(&mut out, cmd);
        proof {
            assert forall|k: int|
                0 <= k < i + 1 implies has_command_id(out@, (#[trigger] pall[k]).spec.id.0@) by {
                if k < i {
                    if pall[k].spec.id.0@ != pall[i].spec.id.0@ {
                        let w = choose|w: int|
                            0 <= w < out0.len() && (#[trigger] out0[w]).spec.id.0@ == pall[
                            k].spec.id.0@;
                        assert(exists|j: int|
                            0 <= j < out@.len() && #[trigger] out@[j] == out0[w]);
                    }
                }
            }
        }
    }
    proof {
        assert(pall.skip(0) =~= pall);
    }
    out
}

} // verus!
