//! Sub-agent definitions: the registry keyed by agent name, the markdown
//! frontmatter format they are loaded from, and the allowlist filtering that
//! isolates a sub-agent's tool set.

use vstd::prelude::*;

verus! {

use crate::chars::lex_lt;
use crate::chars::lex_cmp;
use crate::chars::str_to_chars;
use crate::chars::chars_to_string;
use crate::chars::trim_ws;
use crate::chars::trim_chars;
use crate::exec_format::join_nl;
use crate::exec_format::join_nl_exec;
use crate::exec_format::lines_of;
use crate::exec_format::lines_of_exec;
use crate::items::string_is;
use crate::tools::OpenAiTool;
use crate::tools::tool_name_spec;
use crate::tools::tool_name;

/// A sub-agent: a named role with its own system prompt and an optional tool
/// allowlist (`None` = all tools, `Some([])` = none).
#[derive(Debug, Clone, PartialEq)]
pub struct SubAgent {
    pub name: String,
    pub description: String,
    pub tools: Option<Vec<String>>,
    pub body: String,
}

/// The names of a list of agents, in order.
pub open spec fn agent_names(agents: Seq<SubAgent>) -> Seq<Seq<char>> {
    Seq::new(agents.len(), |i: int| agents[i].name@)
}

/// Strictly increasing names: sorted and free of duplicates.
pub open spec fn names_strictly_sorted(agents: Seq<SubAgent>) -> bool {
    forall|i: int, j: int|
        0 <= i < j < agents.len() ==> lex_lt(
            #[trigger] agents[i].name@,
            #[trigger] agents[j].name@,
        )
}

/// Registry of available sub-agents, ordered by name; inserting under an
/// existing name replaces the earlier definition (project overrides user).
#[derive(Debug, Default)]
pub struct AgentRegistry {
    agents: Vec<SubAgent>,
}

impl AgentRegistry {
    pub closed spec fn view(&self) -> Seq<SubAgent> {
        self.agents@
    }

    pub open spec fn wf(&self) -> bool {
        names_strictly_sorted(self@)
    }

    /// Some agent of this registry is named `name`.
    pub open spec fn spec_has(&self, name: Seq<char>) -> bool {
        exists|i: int| 0 <= i < self@.len() && (#[trigger] self@[i]).name@ == name
    }

    pub fn new() -> (r: AgentRegistry)
        ensures
            r@ == Seq::<SubAgent>::empty(),
            r.wf(),
    {
        AgentRegistry { agents: Vec::new() }
    }

    pub fn len(&self) -> (r: usize)
        ensures
            r == self@.len(),
    {
        self.agents.len()
    }

    /// Insert an agent, replacing any earlier agent of the same name and
    /// keeping the registry ordered by name.
    pub fn insert_agent(&mut self, agent: SubAgent)
        requires
            old(self).wf(),
        ensures
            final(self).wf(),
            final(self).spec_has(agent.name@),
            // The new agent is present exactly once, and everything else is
            // carried over unchanged.
            exists|i: int| 0 <= i < final(self)@.len() && #[trigger] final(self)@[i] == agent,
            forall|j: int|
                0 <= j < final(self)@.len() && (#[trigger] final(self)@[j]).name@ != agent.name@
                    ==> exists|k: int| 0 <= k < old(self)@.len() && old(self)@[k] == final(self)@[j],
            forall|k: int|
                0 <= k < old(self)@.len() && (#[trigger] old(self)@[k]).name@ != agent.name@
                    ==> exists|j: int|
                    0 <= j < final(self)@.len() && final(self)@[j] == old(self)@[k],
    {
        let nv = str_to_chars(agent.name.as_str());
        let mut i: usize = 0;
        while i < self.agents.len() && name_lt(&self.agents, i, &nv)
            invariant
                i <= self@.len(),
                self@ == old(self)@,
                nv@ == agent.name@,
                forall|k: int| 0 <= k < i ==> lex_lt((#[trigger] self@[k]).name@, agent.name@),
            decreases self@.len() - i,
        {
            i = i + 1;
        }
        let ghost s0 = self@;
        if i < self.agents.len() {
            let c = lex_cmp(&str_to_chars(self.agents[i].name.as_str()), &nv);
            if c == 1 {
                // Same name: replace in place.
                let _old = self.agents.remove(i);
                self.agents.insert(i, agent);
                proof {
                    lemma_insert_preserves(s0, self@, i as int);
                }
                return ;
            }
        }
        // Names at indices >= i are strictly greater; insert here.
        self.agents.insert(i, agent);
        proof {
            assert forall|a: int, b: int|
                0 <= a < b < self@.len() implies lex_lt(
                (#[trigger] self@[a]).name@,
                (#[trigger] self@[b]).name@,
            ) by {
                crate::chars::lemma_lex_trichotomy(s0[i as int].name@, agent.name@);
                if a < i && b > i {
                    assert(self@[a] == s0[a]);
                    assert(self@[b] == s0[b - 1]);
                    if b - 1 == i {
                        crate::chars::lemma_lex_lt_trans(s0[a].name@, agent.name@, self@[b].name@);
                    }
                } else if a == i && b > i {
                    assert(self@[b] == s0[b - 1]);
                    if b - 1 > i {
                        crate::chars::lemma_lex_lt_trans(
                            agent.name@,
                            s0[i as int].name@,
                            s0[b - 1].name@,
                        );
                    }
                } else if a < i && b == i {
                    assert(self@[a] == s0[a]);
                } else if b < i {
                    assert(self@[a] == s0[a] && self@[b] == s0[b]);
                } else if a > i {
                    assert(self@[a] == s0[a - 1] && self@[b] == s0[b - 1]);
                }
            }
            assert(self@[i as int] == agent);
            assert forall|j: int|
                0 <= j < self@.len() && (#[trigger] self@[j]).name@ != agent.name@ implies exists|
                k: int,
            | 0 <= k < s0.len() && s0[k] == self@[j] by {
                if j < i {
                    assert(s0[j] == self@[j]);
                } else if j > i {
                    assert(s0[j - 1] == self@[j]);
                }
            }
            assert forall|k: int|
                0 <= k < s0.len() && (#[trigger] s0[k]).name@ != agent.name@ implies exists|j: int|
                0 <= j < self@.len() && self@[j] == s0[k] by {
                if k < i {
                    assert(self@[k] == s0[k]);
                } else {
                    assert(self@[k + 1] == s0[k]);
                }
            }
        }
    }

    /// Look up an agent by name.
    pub fn get(&self, name: &str) -> (r: Option<&SubAgent>)
        ensures
            match r {
                Some(a) => a.name@ == name@ && exists|i: int|
                    0 <= i < self@.len() && #[trigger] self@[i] == *a,
                None => !self.spec_has(name@),
            },
    {
        let mut i: usize = 0;
        while i < self.agents.len()
            invariant
                i <= self@.len(),
                forall|k: int| 0 <= k < i ==> (#[trigger] self@[k]).name@ != name@,
            decreases self@.len() - i,
        {
            let other = String::from_str(name);
            if self.agents[i].name == other {
                return Some(&self.agents[i]);
            }
            i = i + 1;
        }
        None
    }

    /// The agent names, in registry (sorted) order.
    pub fn names(&self) -> (r: Vec<String>)
        ensures
            r.deep_view() == agent_names(self@),
    {
        let mut out: Vec<String> = Vec::new();
        let mut i: usize = 0;
        while i < self.agents.len()
            invariant
                i <= self@.len(),
                out.deep_view() == agent_names(self@).take(i as int),
            decreases self@.len() - i,
        {
            let ghost o0 = out.deep_view();
            out.push(self.agents[i].name.clone());
            proof {
                assert(out.deep_view() =~~= o0.push(self@[i as int].name@));
                assert(out.deep_view() =~~= agent_names(self@).take(i + 1));
            }
            i = i + 1;
        }
        proof {
            assert(agent_names(self@).take(self@.len() as int) =~~= agent_names(self@));
        }
        out
    }

    /// Whether an agent of this name exists.
    pub fn has_agent(&self, name: &str) -> (r: bool)
        ensures
            r == self.spec_has(name@),
    {
        match self.get(name) {
            Some(_) => true,
            None => false,
        }
    }
}

/// The agent at `i` is named strictly before `nv`.
fn name_lt(agents: &Vec<SubAgent>, i: usize, nv: &Vec<char>) -> (r: bool)
    requires
        i < agents@.len(),
    ensures
        r == lex_lt(agents@[i as int].name@, nv@),
{
    let c = lex_cmp(&str_to_chars(agents[i].name.as_str()), nv);
    c == 0
}

proof fn lemma_insert_preserves(s0: Seq<SubAgent>, s1: Seq<SubAgent>, i: int)
    requires
        0 <= i < s0.len(),
        s1 == s0.remove(i).insert(i, s1[i]),
        s1.len() == s0.len(),
        names_strictly_sorted(s0),
        s1[i].name@ == s0[i].name@,
    ensures
        names_strictly_sorted(s1),
        forall|j: int|
            0 <= j < s1.len() && (#[trigger] s1[j]).name@ != s1[i].name@ ==> exists|k: int|
                0 <= k < s0.len() && s0[k] == s1[j],
        forall|k: int|
            0 <= k < s0.len() && (#[trigger] s0[k]).name@ != s1[i].name@ ==> exists|j: int|
                0 <= j < s1.len() && s1[j] == s0[k],
{
    assert(forall|j: int| 0 <= j < s1.len() && j != i ==> #[trigger] s1[j] == s0[j]);
    assert forall|a: int, b: int|
        0 <= a < b < s1.len() implies lex_lt((#[trigger] s1[a]).name@, (#[trigger] s1[b]).name@) by {
        assert(lex_lt(s0[a].name@, s0[b].name@));
    }
    assert forall|j: int|
        0 <= j < s1.len() && (#[trigger] s1[j]).name@ != s1[i].name@ implies exists|k: int|
        0 <= k < s0.len() && s0[k] == s1[j] by {
        assert(j != i);
        assert(s0[j] == s1[j]);
    }
    assert forall|k: int|
        0 <= k < s0.len() && (#[trigger] s0[k]).name@ != s1[i].name@ implies exists|j: int|
        0 <= j < s1.len() && s1[j] == s0[k] by {
        assert(k != i);
        assert(s1[k] == s0[k]);
    }
}

/// Index of the first line at or after `k` whose trimmed text is `---`, or
/// `-1` when there is none.
pub open spec fn first_fm_close(lines: Seq<Seq<char>>, k: int) -> int
    decreases lines.len() - k,
{
    if k < 0 || k >= lines.len() {
        -1
    } else if trim_ws(lines[k]) == "---"@ {
        k
    } else {
        first_fm_close(lines, k + 1)
    }
}

/// The file opens with a `---` frontmatter delimiter line.
pub open spec fn has_frontmatter_start(lines: Seq<Seq<char>>) -> bool {
    lines.len() > 0 && trim_ws(lines[0]) == "---"@
}

/// The body text after the closing `---` line, before trimming.
pub open spec fn agent_body_text(lines: Seq<Seq<char>>) -> Seq<char> {
    let c = first_fm_close(lines, 1);
    if c == -1 {
        Seq::empty()
    } else {
        join_nl(lines.skip(c + 1))
    }
}

/// The frontmatter lines between the delimiters, each with a trailing
/// newline, concatenated (the text handed to the YAML parser).
pub open spec fn fm_text(lines: Seq<Seq<char>>, from: int, to: int) -> Seq<char>
    decreases to - from,
{
    if from >= to {
        Seq::empty()
    } else {
        fm_text(lines, from, to - 1) + lines[to - 1] + seq!['\n']
    }
}

/// The frontmatter text of a definition file: lines after the opening `---`
/// up to the closing one.
pub open spec fn frontmatter_text(lines: Seq<Seq<char>>) -> Seq<char> {
    let c = first_fm_close(lines, 1);
    if c == -1 {
        Seq::empty()
    } else {
        fm_text(lines, 1, c)
    }
}

/// The `tools` field is absent, or a sequence whose every element is a
/// non-blank string.
pub open spec fn tools_field_ok(fmt: Seq<char>) -> bool {
    ||| !crate::yaml::yaml_has_field_of(fmt, "tools"@)
    ||| (crate::yaml::yaml_str_list_of(fmt, "tools"@) matches Some(es) && (forall|k: int|
        0 <= k < es.len() ==> (#[trigger] es[k] matches Some(s) && trim_ws(s).len() > 0)))
}

/// All the conditions under which parsing a sub-agent file must succeed:
/// well-formed delimiters, parseable frontmatter with a non-empty string
/// description and well-formed tools, and a non-blank body.
pub open spec fn agent_file_ok(lines: Seq<Seq<char>>) -> bool {
    &&& has_frontmatter_start(lines)
    &&& first_fm_close(lines, 1) != -1
    &&& crate::yaml::yaml_parses(frontmatter_text(lines))
    &&& (crate::yaml::yaml_str_field_of(frontmatter_text(lines), "description"@) matches Some(d)
        && d.len() > 0)
    &&& tools_field_ok(frontmatter_text(lines))
    &&& trim_ws(agent_body_text(lines)).len() > 0
}

/// Parse a sub-agent definition: YAML frontmatter delimited by `---` lines
/// holding a required non-empty `description` and an optional `tools`
/// allowlist of non-blank names, followed by a non-empty body used as the
/// agent's prompt. The filename stem names the agent; a differing
/// frontmatter `name` is ignored.
#[verifier::loop_isolation(false)]
pub fn parse_agent_markdown(content: &str, agent_name: String) -> (r: Result<SubAgent, String>)
    ensures
        (!has_frontmatter_start(lines_of(content@)) <==> (r matches Err(e) && e@
            == "missing YAML frontmatter at start of file"@)),
        agent_file_ok(lines_of(content@)) ==> r is Ok,
        r matches Ok(a) ==> {
            let lines = lines_of(content@);
            let fmt = frontmatter_text(lines);
            &&& a.name == agent_name
            &&& a.body@ == trim_ws(agent_body_text(lines))
            &&& a.body@.len() > 0
            &&& crate::yaml::yaml_str_field_of(fmt, "description"@) == Some(a.description@)
            &&& a.description@.len() > 0
            &&& (a.tools is Some <==> crate::yaml::yaml_has_field_of(fmt, "tools"@))
            &&& (a.tools matches Some(ts) ==> crate::yaml::yaml_str_list_of(fmt, "tools"@)
                matches Some(es) && es.len() == ts@.len() && (forall|k: int|
                0 <= k < ts@.len() ==> #[trigger] es[k] == Some(ts@[k]@) && trim_ws(
                    ts@[k]@,
                ).len() > 0))
        },
{
    let cs = str_to_chars(content);
    let lines = lines_of_exec(&cs);
    let ghost lv = lines_of(content@);
    proof {
        assert(lines.deep_view().len() == lines@.len());
        lemma_agent_err_texts();
    }
    let missing_start = if lines.len() == 0 {
        true
    } else {
        let first = trim_chars(&lines[0]);
        let dashes = str_to_chars("---");
        proof {
            assert(lines.deep_view()[0] == lines@[0]@);
        }
        !vec_chars_eq(&first, &dashes)
    };
    if missing_start {
        return Err(String::from_str("missing YAML frontmatter at start of file"));
    }
    // Find the closing delimiter.
    let mut close: usize = 1;
    while close < lines.len() && !is_dashes_line(&lines, close)
        invariant
            1 <= close <= lines@.len(),
            lines.deep_view() == lv,
            forall|m: int| 1 <= m < close ==> trim_ws(lv[m]) != "---"@,
        decreases lines@.len() - close,
    {
        close = close + 1;
    }
    proof {
        if close < lines@.len() {
            lemma_first_fm_close_at(lv, 1, close as int);
        } else {
            lemma_first_fm_close_none(lv, 1);
        }
    }
    if close >= lines.len() {
        // No closing delimiter: the body is empty.
        return Err(String::from_str("agent markdown must have a non-empty body"));
    }
    // Frontmatter text: the lines between the delimiters, each ending in a
    // newline.
    let mut fm: Vec<char> = Vec::new();
    let mut t: usize = 1;
    proof {
        assert(fm@ =~= fm_text(lv, 1, 1));
    }
    while t < close
        invariant
            1 <= t <= close < lines@.len(),
            lines.deep_view() == lv,
            fm@ == fm_text(lv, 1, t as int),
        decreases close - t,
    {
        let lcs = crate::chars::vec_subrange(&lines[t], 0, lines[t].len());
        let ghost fm0 = fm@;
        crate::template::push_all(&mut fm, &lcs);
        fm.push('\n');
        proof {
            assert(lcs@ =~= lv[t as int]);
            assert(fm@ =~= (fm0 + lv[t as int]).push('\n'));
            assert(fm@ =~= fm0 + lv[t as int] + seq!['\n']);
        }
        t = t + 1;
    }
    let fm_s = chars_to_string(&fm);
    let ghost fmt = frontmatter_text(lv);
    proof {
        assert(fm_s@ == fmt);
    }

    // The body after the closing delimiter, trimmed.
    let body_joined = join_nl_exec(&lines, close + 1, lines.len());
    proof {
        assert(lines.deep_view().subrange(close + 1, lines@.len() as int) =~~= lv.skip(
            close + 1,
        ));
    }
    let body_trimmed = trim_chars(&body_joined);
    let body = chars_to_string(&body_trimmed);

    let description = match crate::yaml::yaml_str_field(fm_s.as_str(), "description") {
        Err(e) => {
            let mut msg = String::from_str("frontmatter parse error: ");
            msg.append(e.as_str());
            proof {
                reveal_strlit("frontmatter parse error: ");
                reveal_strlit("missing YAML frontmatter at start of file");
                assert(msg@[0] == 'f');
                assert(msg@ != "missing YAML frontmatter at start of file"@);
            }
            return Err(msg);
        },
        Ok(None) => {
            return Err(String::from_str("frontmatter parse error: missing field `description`"));
        },
        Ok(Some(d)) => d,
    };
    if description.as_str().is_empty() {
        return Err(String::from_str("agent description must be non-empty"));
    }
    let has_tools = match crate::yaml::yaml_has_field(fm_s.as_str(), "tools") {
        Ok(b) => b,
        Err(_) => {
            proof {
                assert(false);
            }
            false
        },
    };
    let tools: Option<Vec<String>> = if !(has_tools) {
        None
    } else {
        let entries = match crate::yaml::yaml_str_list_field(fm_s.as_str(), "tools") {
            Ok(Some(entries)) => entries,
            Ok(None) => {
                return Err(String::from_str("frontmatter parse error: `tools` must be a list"));
            },
            Err(_) => {
                proof {
                    assert(false);
                }
                Vec::new()
            },
        };
        let ghost es = entries.deep_view();
        let mut names: Vec<String> = Vec::new();
        let mut q: usize = 0;
        while q < entries.len()
            invariant
                q <= entries@.len(),
                entries.deep_view() == es,
                names@.len() == q,
                forall|w: int|
                    0 <= w < q ==> #[trigger] es[w] == Some(names@[w]@) && trim_ws(
                        names@[w]@,
                    ).len() > 0,
            decreases entries.len() - q,
        {
            proof {
                assert(es[q as int] == (match entries@[q as int] {
                    Some(s) => Some(s@),
                    None => None::<Seq<char>>,
                }));
            }
            match &entries[q] {
                Some(name) => {
                    let nv = str_to_chars(name.as_str());
                    let trimmed = trim_chars(&nv);
                    if trimmed.len() == 0 {
                        proof {
                            assert(es[q as int] matches Some(s) && trim_ws(s).len() == 0);
                        }
                        return Err(String::from_str("tool names must be non-empty"));
                    }
                    names.push(name.clone());
                },
                None => {
                    proof {
                        assert(es[q as int] is None);
                    }
                    return Err(
                        String::from_str(
                            "frontmatter parse error: `tools` must be a list of strings",
                        ),
                    );
                },
            }
            q = q + 1;
        }
        Some(names)
    };
    if body.as_str().is_empty() {
        return Err(String::from_str("agent markdown must have a non-empty body"));
    }
    proof {
        crate::chars::lemma_utf8_len_ge_char_count(body@);
    }
    Ok(SubAgent { name: agent_name, description, tools, body })
}

/// The fixed error messages are pairwise distinct from the missing-start one.
proof fn lemma_agent_err_texts()
    ensures
        "agent markdown must have a non-empty body"@ != "missing YAML frontmatter at start of file"@,
        "frontmatter parse error: missing field `description`"@ != "missing YAML frontmatter at start of file"@,
        "agent description must be non-empty"@ != "missing YAML frontmatter at start of file"@,
        "frontmatter parse error: `tools` must be a list"@ != "missing YAML frontmatter at start of file"@,
        "tool names must be non-empty"@ != "missing YAML frontmatter at start of file"@,
        "frontmatter parse error: `tools` must be a list of strings"@ != "missing YAML frontmatter at start of file"@,
        "missing YAML frontmatter at start of file"@[0] == 'm',
        "missing YAML frontmatter at start of file"@.len() == 41,
{
    reveal_strlit("agent markdown must have a non-empty body");
    reveal_strlit("missing YAML frontmatter at start of file");
    reveal_strlit("frontmatter parse error: missing field `description`");
    reveal_strlit("agent description must be non-empty");
    reveal_strlit("frontmatter parse error: `tools` must be a list");
    reveal_strlit("tool names must be non-empty");
    reveal_strlit("frontmatter parse error: `tools` must be a list of strings");
    assert("missing YAML frontmatter at start of file"@[0] == 'm');
    assert("agent markdown must have a non-empty body"@[0] == 'a');
    assert("frontmatter parse error: missing field `description`"@[0] == 'f');
    assert("agent description must be non-empty"@[0] == 'a');
    assert("frontmatter parse error: `tools` must be a list"@[0] == 'f');
    assert("tool names must be non-empty"@[0] == 't');
    assert("frontmatter parse error: `tools` must be a list of strings"@[0] == 'f');
}

/// The line at `i` trims to `---`.
fn is_dashes_line(lines: &Vec<Vec<char>>, i: usize) -> (r: bool)
    requires
        i < lines@.len(),
    ensures
        r == (trim_ws(lines.deep_view()[i as int]) == "---"@),
{
    let trimmed = trim_chars(&lines[i]);
    let dashes = str_to_chars("---");
    proof {
        assert(lines.deep_view()[i as int] == lines@[i as int]@);
    }
    vec_chars_eq(&trimmed, &dashes)
}

/// Character-wise equality of two vectors.
fn vec_chars_eq(a: &Vec<char>, b: &Vec<char>) -> (r: bool)
    ensures
        r == (a@ == b@),
{
    let c = lex_cmp(a, b);
    c == 1
}

proof fn lemma_first_fm_close_at(lines: Seq<Seq<char>>, from: int, at: int)
    requires
        1 <= from <= at < lines.len(),
        forall|m: int| from <= m < at ==> trim_ws(#[trigger] lines[m]) != "---"@,
        trim_ws(lines[at]) == "---"@,
    ensures
        first_fm_close(lines, from) == at,
    decreases at - from,
{
    if from < at {
        lemma_first_fm_close_at(lines, from + 1, at);
    }
}

proof fn lemma_first_fm_close_none(lines: Seq<Seq<char>>, from: int)
    requires
        from >= 0,
        forall|m: int| from <= m < lines.len() ==> trim_ws(#[trigger] lines[m]) != "---"@,
    ensures
        first_fm_close(lines, from) == -1,
    decreases lines.len() - from,
{
    if from < lines.len() {
        lemma_first_fm_close_none(lines, from + 1);
    }
}

/// Public form of the closing-delimiter characterization, for other loaders
/// of the same frontmatter format.
pub proof fn lemma_fm_close_at_pub(lines: Seq<Seq<char>>, at: int)
    requires
        1 <= at < lines.len(),
        forall|m: int| 1 <= m < at ==> trim_ws(#[trigger] lines[m]) != "---"@,
        trim_ws(lines[at]) == "---"@,
    ensures
        first_fm_close(lines, 1) == at,
{
    lemma_first_fm_close_at(lines, 1, at);
}

pub proof fn lemma_fm_close_none_pub(lines: Seq<Seq<char>>)
    requires
        forall|m: int| 1 <= m < lines.len() ==> trim_ws(#[trigger] lines[m]) != "---"@,
    ensures
        first_fm_close(lines, 1) == -1,
{
    lemma_first_fm_close_none(lines, 1);
}

/// A discovered sub-agent as the front-end sees it: definition plus the file
/// it was loaded from.
#[derive(Debug, Clone, PartialEq)]
pub struct Agent {
    pub name: String,
    pub path: String,
    pub description: String,
    pub tools: Option<Vec<String>>,
    pub prompt: String,
}

/// The YAML frontmatter fields of an agent file.
#[derive(Debug, Clone, PartialEq)]
pub struct AgentFrontmatter {
    pub name: String,
    pub description: String,
    pub tools: Option<Vec<String>>,
}

/// The shell alias group: allowing any of these allows all of them.
pub open spec fn shell_alias_group() -> Seq<Seq<char>> {
    seq!["shell"@, "local_shell"@, "exec_command"@, "write_stdin"@]
}

pub open spec fn in_alias_group(name: Seq<char>) -> bool {
    exists|k: int| 0 <= k < shell_alias_group().len() && shell_alias_group()[k] == name
}

pub open spec fn allow_mentions_shell(allow: Seq<Seq<char>>) -> bool {
    exists|k: int| 0 <= k < allow.len() && in_alias_group(#[trigger] allow[k])
}

/// A tool name passes the allowlist if it is listed, or belongs to the shell
/// alias group while some listed name does.
pub open spec fn allowed_name(allow: Seq<Seq<char>>, name: Seq<char>) -> bool {
    ||| (exists|k: int| 0 <= k < allow.len() && allow[k] == name)
    ||| (allow_mentions_shell(allow) && in_alias_group(name))
}

/// The tools a sub-agent may use under an optional allowlist: `None` keeps
/// everything, an explicit list keeps exactly the tools whose names pass it,
/// expanding the shell alias group as one unit.
pub open spec fn filtered_tools(tools: Seq<OpenAiTool>, allowed: Option<Seq<Seq<char>>>) -> Seq<
    OpenAiTool,
> {
    match allowed {
        None => tools,
        Some(allow) => tools.filter(|t: OpenAiTool| allowed_name(allow, tool_name_spec(t))),
    }
}

/// Whether `name` is allowed; executable mirror of `allowed_name`.
fn allowed_name_exec(allow: &Vec<String>, mentions_shell: bool, name: &str) -> (r: bool)
    requires
        mentions_shell == allow_mentions_shell(allow.deep_view()),
    ensures
        r == allowed_name(allow.deep_view(), name@),
{
    let mut k: usize = 0;
    while k < allow.len()
        invariant
            k <= allow@.len(),
            forall|q: int| 0 <= q < k ==> allow.deep_view()[q] != name@,
        decreases allow@.len() - k,
    {
        if string_is(&allow[k], name) {
            proof {
                assert(allow.deep_view()[k as int] == name@);
            }
            return true;
        }
        proof {
            assert(allow.deep_view()[k as int] == allow@[k as int]@);
        }
        k = k + 1;
    }
    if mentions_shell {
        let is_alias = str_eq_lit(name, "shell") || str_eq_lit(name, "local_shell") || str_eq_lit(
            name,
            "exec_command",
        ) || str_eq_lit(name, "write_stdin");
        proof {
            if is_alias {
                if name@ == "shell"@ {
                    assert(shell_alias_group()[0] == name@);
                } else if name@ == "local_shell"@ {
                    assert(shell_alias_group()[1] == name@);
                } else if name@ == "exec_command"@ {
                    assert(shell_alias_group()[2] == name@);
                } else {
                    assert(shell_alias_group()[3] == name@);
                }
            } else {
                assert(!in_alias_group(name@)) by {
                    if in_alias_group(name@) {
                        let k = choose|k: int|
                            0 <= k < shell_alias_group().len() && shell_alias_group()[k] == name@;
                        assert(k == 0 || k == 1 || k == 2 || k == 3);
                    }
                }
            }
        }
        return is_alias;
    }
    false
}

/// Equality of a string slice with a literal.
fn str_eq_lit(s: &str, lit: &str) -> (r: bool)
    ensures
        r == (s@ == lit@),
{
    let a = String::from_str(s);
    let b = String::from_str(lit);
    a == b
}

/// Filter available tools using an optional allowlist, expanding the shell
/// alias group: if any of `shell`, `local_shell`, `exec_command`,
/// `write_stdin` is allowed, all four are.
pub fn filter_tools_for_agent(tools: Vec<OpenAiTool>, allowed: Option<&Vec<String>>) -> (r: Vec<
    OpenAiTool,
>)
    ensures
        r@ == filtered_tools(tools@, match allowed {
            Some(a) => Some(a.deep_view()),
            None => None,
        }),
{
    let allow = match allowed {
        None => {
            return tools;
        },
        Some(a) => a,
    };
    let ghost allow_v = allow.deep_view();
    // Does the allowlist mention the shell group?
    let mut mentions_shell: bool = false;
    let mut k: usize = 0;
    while k < allow.len()
        invariant
            k <= allow@.len(),
            allow_v == allow.deep_view(),
            mentions_shell <==> exists|q: int| 0 <= q < k && in_alias_group(#[trigger] allow_v[q]),
        decreases allow@.len() - k,
    {
        let a = &allow[k];
        let hit = string_is(a, "shell") || string_is(a, "local_shell") || string_is(
            a,
            "exec_command",
        ) || string_is(a, "write_stdin");
        proof {
            assert(allow_v[k as int] == allow@[k as int]@);
            if hit {
                if a@ == "shell"@ {
                    assert(shell_alias_group()[0] == allow_v[k as int]);
                } else if a@ == "local_shell"@ {
                    assert(shell_alias_group()[1] == allow_v[k as int]);
                } else if a@ == "exec_command"@ {
                    assert(shell_alias_group()[2] == allow_v[k as int]);
                } else {
                    assert(shell_alias_group()[3] == allow_v[k as int]);
                }
            } else {
                assert(!in_alias_group(allow_v[k as int])) by {
                    if in_alias_group(allow_v[k as int]) {
                        let q = choose|q: int|
                            0 <= q < shell_alias_group().len() && shell_alias_group()[q] == allow_v[
                            k as int];
                        assert(q == 0 || q == 1 || q == 2 || q == 3);
                    }
                }
            }
        }
        if hit {
            mentions_shell = true;
        }
        k = k + 1;
    }

    let mut rest = tools;
    let total = rest.len();
    let mut out: Vec<OpenAiTool> = Vec::new();
    let ghost all = rest@;
    let mut i: usize = 0;
    let ghost pred = |t: OpenAiTool| allowed_name(allow_v, tool_name_spec(t));
    proof {
        assert(all.take(0) =~= Seq::<OpenAiTool>::empty());
        assert(all.take(0).filter(pred) =~= Seq::<OpenAiTool>::empty());
    }
    while rest.len() > 0
        invariant
            i + rest@.len() == total,
            all.len() == total,
            rest@ == all.skip(i as int),
            allow_v == allow.deep_view(),
            mentions_shell == allow_mentions_shell(allow_v),
            pred == (|t: OpenAiTool| allowed_name(allow_v, tool_name_spec(t))),
            out@ == all.take(i as int).filter(pred),
        decreases rest@.len(),
    {
        let ghost r0 = rest@;
        let t = rest.remove(0);
        proof {
            assert(t == all[i as int]);
            assert(rest@ =~= all.skip(i as int + 1));
        }
        let keep = match tool_name(&t) {
            Some(name) => allowed_name_exec(allow, mentions_shell, name),
            None => false,
        };
        proof {
            assert(all.take(i + 1).drop_last() =~= all.take(i as int));
            assert(all.take(i + 1).last() == all[i as int]);
            reveal_with_fuel(Seq::filter, 2);
            assert(all.take(i + 1).filter(pred) == if pred(all[i as int]) {
                all.take(i as int).filter(pred).push(all[i as int])
            } else {
                all.take(i as int).filter(pred)
            });
        }
        if keep {
            out.push(t);
        }
        i = i + 1;
    }
    proof {
        assert(all.take(all.len() as int) =~= all);
    }
    out
}

/// Every tool that passes the filter is named in the allowlist or in the
/// shell alias group expanded from it.
pub proof fn lemma_allowlist_enforcement(tools: Seq<OpenAiTool>, allow: Seq<Seq<char>>)
    ensures
        forall|j: int|
            0 <= j < filtered_tools(tools, Some(allow)).len() ==> allowed_name(
                allow,
                tool_name_spec(#[trigger] filtered_tools(tools, Some(allow))[j]),
            ),
{
    let pred = |t: OpenAiTool| allowed_name(allow, tool_name_spec(t));
    tools.filter_lemma(pred);
    assert forall|j: int|
        0 <= j < filtered_tools(tools, Some(allow)).len() implies allowed_name(
        allow,
        tool_name_spec(#[trigger] filtered_tools(tools, Some(allow))[j]),
    ) by {
        assert(pred(tools.filter(pred)[j]));
    }
}

/// An empty allowlist filters everything out.
pub proof fn lemma_empty_allowlist(tools: Seq<OpenAiTool>)
    ensures
        filtered_tools(tools, Some(Seq::empty())) == Seq::<OpenAiTool>::empty(),
    decreases tools.len(),
{
    let allow = Seq::<Seq<char>>::empty();
    let pred = |t: OpenAiTool| allowed_name(allow, tool_name_spec(t));
    if tools.len() == 0 {
        assert(tools.filter(pred) =~= Seq::<OpenAiTool>::empty());
    } else {
        lemma_empty_allowlist(tools.drop_last());
        assert(!pred(tools.last())) by {
            assert(!allow_mentions_shell(allow));
        }
        reveal_with_fuel(Seq::filter, 2);
        assert(tools.filter(pred) == tools.drop_last().filter(pred));
    }
}

/// Allowing `shell` expands to the whole alias group: every tool whose name
/// is in the group passes the filter.
pub proof fn lemma_shell_alias_expansion(tools: Seq<OpenAiTool>, j: int)
    requires
        0 <= j < tools.len(),
        in_alias_group(tool_name_spec(tools[j])),
    ensures
        filtered_tools(tools, Some(seq!["shell"@])).contains(tools[j]),
{
    let allow = seq!["shell"@];
    let pred = |t: OpenAiTool| allowed_name(allow, tool_name_spec(t));
    assert(in_alias_group("shell"@)) by {
        assert(shell_alias_group()[0] == "shell"@);
    }
    assert(allow_mentions_shell(allow)) by {
        assert(in_alias_group(allow[0]));
    }
    assert(pred(tools[j]));
    tools.filter_lemma(pred);
    assert(tools.filter(pred).contains(tools[j]));
}

} // verus!
