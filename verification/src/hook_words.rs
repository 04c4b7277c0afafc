//! How a tool call is put into words.

use vstd::prelude::*;
use vstd::string::*;

use crate::hook;
use crate::json::JsonView;
use crate::strings;
use crate::text;

verus! {

/// The names of the tools are different names.
proof fn lemma_tools()
    ensures
        "Bash"@[0] != 'm',
        "PowerShell"@[0] != 'm',
        "Read"@[0] != 'm',
        "Edit"@[0] != 'm',
        "Write"@[0] != 'm',
        "NotebookEdit"@[0] != 'm',
        "NotebookRead"@[0] != 'm',
        "MultiEdit"@[0] != 'm',
        "Glob"@[0] != 'm',
        "Grep"@[0] != 'm',
        "WebFetch"@[0] != 'm',
        "WebSearch"@[0] != 'm',
        "Task"@[0] != 'm',
        "Agent"@[0] != 'm',
        "Skill"@[0] != 'm',
        "TodoWrite"@[0] != 'm',
        "TaskCreate"@[0] != 'm',
        "TaskUpdate"@[0] != 'm',
        "TaskList"@[0] != 'm',
        "TaskGet"@[0] != 'm',
        "Bash"@.len() == 4,
        "PowerShell"@.len() == 10,
        "Read"@.len() == 4,
        "Edit"@.len() == 4,
        "Write"@.len() == 5,
        "NotebookEdit"@.len() == 12,
        "NotebookRead"@.len() == 12,
        "MultiEdit"@.len() == 9,
        "Glob"@.len() == 4,
        "Grep"@.len() == 4,
        "WebFetch"@.len() == 8,
        "WebSearch"@.len() == 9,
        "Task"@.len() == 4,
        "Agent"@.len() == 5,
        "Skill"@.len() == 5,
        "TodoWrite"@.len() == 9,
        "TaskCreate"@.len() == 10,
        "TaskUpdate"@.len() == 10,
        "TaskList"@.len() == 8,
        "TaskGet"@.len() == 7,
        "Bash"@ != "Read"@,
        "Bash"@ != "Edit"@,
        "Bash"@ != "Glob"@,
        "Bash"@ != "Grep"@,
        "Bash"@ != "Task"@,
        "PowerShell"@ != "TaskCreate"@,
        "PowerShell"@ != "TaskUpdate"@,
        "Read"@ != "Edit"@,
        "Read"@ != "Glob"@,
        "Read"@ != "Grep"@,
        "Read"@ != "Task"@,
        "Edit"@ != "Glob"@,
        "Edit"@ != "Grep"@,
        "Edit"@ != "Task"@,
        "Write"@ != "Agent"@,
        "Write"@ != "Skill"@,
        "NotebookEdit"@ != "NotebookRead"@,
        "MultiEdit"@ != "WebSearch"@,
        "MultiEdit"@ != "TodoWrite"@,
        "Glob"@ != "Grep"@,
        "Glob"@ != "Task"@,
        "Grep"@ != "Task"@,
        "WebFetch"@ != "TaskList"@,
        "WebSearch"@ != "TodoWrite"@,
        "Agent"@ != "Skill"@,
        "TaskCreate"@ != "TaskUpdate"@,
{
    reveal_strlit("Bash");
    reveal_strlit("PowerShell");
    reveal_strlit("Read");
    reveal_strlit("Edit");
    reveal_strlit("Write");
    reveal_strlit("NotebookEdit");
    reveal_strlit("NotebookRead");
    reveal_strlit("MultiEdit");
    reveal_strlit("Glob");
    reveal_strlit("Grep");
    reveal_strlit("WebFetch");
    reveal_strlit("WebSearch");
    reveal_strlit("Task");
    reveal_strlit("Agent");
    reveal_strlit("Skill");
    reveal_strlit("TodoWrite");
    reveal_strlit("TaskCreate");
    reveal_strlit("TaskUpdate");
    reveal_strlit("TaskList");
    reveal_strlit("TaskGet");
    assert("Bash"@[0] != "Read"@[0]);
    assert("Bash"@[0] != "Edit"@[0]);
    assert("Bash"@[0] != "Glob"@[0]);
    assert("Bash"@[0] != "Grep"@[0]);
    assert("Bash"@[0] != "Task"@[0]);
    assert("PowerShell"@[0] != "TaskCreate"@[0]);
    assert("PowerShell"@[0] != "TaskUpdate"@[0]);
    assert("Read"@[0] != "Edit"@[0]);
    assert("Read"@[0] != "Glob"@[0]);
    assert("Read"@[0] != "Grep"@[0]);
    assert("Read"@[0] != "Task"@[0]);
    assert("Edit"@[0] != "Glob"@[0]);
    assert("Edit"@[0] != "Grep"@[0]);
    assert("Edit"@[0] != "Task"@[0]);
    assert("Write"@[0] != "Agent"@[0]);
    assert("Write"@[0] != "Skill"@[0]);
    assert("NotebookEdit"@[8] != "NotebookRead"@[8]);
    assert("MultiEdit"@[0] != "WebSearch"@[0]);
    assert("MultiEdit"@[0] != "TodoWrite"@[0]);
    assert("Glob"@[1] != "Grep"@[1]);
    assert("Glob"@[0] != "Task"@[0]);
    assert("Grep"@[0] != "Task"@[0]);
    assert("WebFetch"@[0] != "TaskList"@[0]);
    assert("WebSearch"@[0] != "TodoWrite"@[0]);
    assert("Agent"@[0] != "Skill"@[0]);
    assert("TaskCreate"@[4] != "TaskUpdate"@[4]);
}

/// So are the words for what they do.
proof fn lemma_kinds()
    ensures
        "Reading"@.len() == 7,
        "Editing"@.len() == 7,
        "Running"@.len() == 7,
        "Browsing"@.len() == 8,
        "Delegating"@.len() == 10,
        "Running a skill"@.len() == 15,
        "Planning"@.len() == 8,
        "Working"@.len() == 7,
        "Reading"@ != "Editing"@,
        "Reading"@ != "Running"@,
        "Reading"@ != "Working"@,
        "Editing"@ != "Running"@,
        "Editing"@ != "Working"@,
        "Running"@ != "Working"@,
        "Browsing"@ != "Planning"@,
{
    reveal_strlit("Reading");
    reveal_strlit("Editing");
    reveal_strlit("Running");
    reveal_strlit("Browsing");
    reveal_strlit("Delegating");
    reveal_strlit("Running a skill");
    reveal_strlit("Planning");
    reveal_strlit("Working");
    assert("Reading"@[0] != "Editing"@[0]);
    assert("Reading"@[1] != "Running"@[1]);
    assert("Reading"@[0] != "Working"@[0]);
    assert("Editing"@[0] != "Running"@[0]);
    assert("Editing"@[0] != "Working"@[0]);
    assert("Running"@[0] != "Working"@[0]);
    assert("Browsing"@[0] != "Planning"@[0]);
}

/// None of the tools above is a server's.
proof fn lemma_no_server(tool: Seq<char>)
    requires
        tool.len() == 0 || tool[0] != 'm',
    ensures
        hook::mcp_rest(tool) is None,
{
    reveal_strlit("mcp__");
    if strings::begins(tool, "mcp__"@) {
        assert(tool.take(5)[0] == tool[0]);
        assert("mcp__"@[0] == 'm');
    }
}

/// A verb stands before its object, with one blank between them; without an
/// object it stands alone, and without the colon that would have led to one.
pub proof fn a_verb_stands_before_its_object(verb: Seq<char>, object: Seq<char>)
    ensures
        strings::trimmed(object).len() > 0 ==> hook::verb_object(verb, object) == verb + " "@
            + strings::trimmed(object),
        strings::trimmed(object).len() == 0 && (verb.len() == 0 || verb.last() != ':')
            ==> hook::verb_object(verb, object) == verb,
        strings::trimmed(object).len() == 0 && verb.len() > 1 && verb.last() == ':'
            && verb[verb.len()
            - 2] != ':' ==> hook::verb_object(verb, object) == verb.drop_last(),
{
    let colons = seq![':'];
    assert(colons[0] == ':');
    assert(colons.contains(':'));
    reveal_with_fuel(strings::drop_end, 3);
}

/// A shell call says what it runs: its description where it has one, otherwise
/// the command, cut to fit.
pub proof fn a_shell_call_says_what_it_runs(tool: Seq<char>, input: JsonView)
    requires
        tool == "Bash"@ || tool == "PowerShell"@,
    ensures
        ({
            let words = hook::phrase_spec(tool, Some(input));
            let told = hook::text_of(input, "description"@);
            let shown = if told.len() > 0 { told } else { hook::text_of(input, "command"@) };
            let object = strings::trimmed(text::truncated(shown, 64));
            &&& object.len() > 0 ==> words.present == "Running:"@ + " "@ + object && words.past
                == "Ran:"@ + " "@ + object && words.infinitive == "run:"@ + " "@ + object
        }),
{
    lemma_tools();
    lemma_no_server(tool);
}

/// Reading, editing and writing name the file, without its folders.
pub proof fn reading_names_the_file(tool: Seq<char>, input: JsonView)
    requires
        tool == "Read"@,
    ensures
        ({
            let words = hook::phrase_spec(tool, Some(input));
            let path = hook::text_of(input, "file_path"@);
            let named = if path.len() == 0 { "a file"@ } else { text::basename_spec(path) };
            let object = strings::trimmed(named);
            &&& object.len() > 0 ==> words.present == "Reading"@ + " "@ + object && words.past
                == "Read"@ + " "@ + object && words.infinitive == "read"@ + " "@ + object
        }),
{
    lemma_tools();
    lemma_no_server(tool);
}

/// Editing names the file.
pub proof fn editing_names_the_file(tool: Seq<char>, input: JsonView)
    requires
        tool == "Edit"@,
    ensures
        ({
            let words = hook::phrase_spec(tool, Some(input));
            let path = hook::text_of(input, "file_path"@);
            let named = if path.len() == 0 { "a file"@ } else { text::basename_spec(path) };
            let object = strings::trimmed(named);
            &&& object.len() > 0 ==> words.present == "Editing"@ + " "@ + object && words.past
                == "Edited"@ + " "@ + object && words.infinitive == "edit"@ + " "@ + object
        }),
{
    lemma_tools();
    lemma_no_server(tool);
}

/// Writing names the file.
pub proof fn writing_names_the_file(tool: Seq<char>, input: JsonView)
    requires
        tool == "Write"@,
    ensures
        ({
            let words = hook::phrase_spec(tool, Some(input));
            let path = hook::text_of(input, "file_path"@);
            let named = if path.len() == 0 { "a file"@ } else { text::basename_spec(path) };
            let object = strings::trimmed(named);
            &&& object.len() > 0 ==> words.present == "Writing"@ + " "@ + object && words.past
                == "Wrote"@ + " "@ + object && words.infinitive == "write"@ + " "@ + object
        }),
{
    lemma_tools();
    lemma_no_server(tool);
}

/// Editing a notebook names the notebook.
pub proof fn editing_a_notebook_names_it(tool: Seq<char>, input: JsonView)
    requires
        tool == "NotebookEdit"@,
    ensures
        ({
            let words = hook::phrase_spec(tool, Some(input));
            let path = hook::text_of(input, "notebook_path"@);
            let named = if path.len() == 0 { "a notebook"@ } else { text::basename_spec(path) };
            let object = strings::trimmed(named);
            &&& object.len() > 0 ==> words.present == "Editing"@ + " "@ + object && words.past
                == "Edited"@ + " "@ + object && words.infinitive == "edit"@ + " "@ + object
        }),
{
    lemma_tools();
    lemma_no_server(tool);
}

/// Finding names the pattern.
pub proof fn finding_names_the_pattern(tool: Seq<char>, input: JsonView)
    requires
        tool == "Glob"@,
    ensures
        ({
            let words = hook::phrase_spec(tool, Some(input));
            let pattern = hook::text_of(input, "pattern"@);
            let named = if pattern.len() == 0 { "files"@ } else { text::truncated(pattern, 40) };
            let object = strings::trimmed(named);
            &&& object.len() > 0 ==> words.present == "Finding"@ + " "@ + object && words.past
                == "Found"@ + " "@ + object && words.infinitive == "find"@ + " "@ + object
        }),
{
    lemma_tools();
    lemma_no_server(tool);
}

/// Searching names the pattern.
pub proof fn searching_names_the_pattern(tool: Seq<char>, input: JsonView)
    requires
        tool == "Grep"@,
    ensures
        ({
            let words = hook::phrase_spec(tool, Some(input));
            let object = strings::trimmed(text::truncated(hook::text_of(input, "pattern"@), 40));
            &&& object.len() > 0 ==> words.present == "Searching for"@ + " "@ + object && words.past
                == "Searched for"@ + " "@ + object
                    && words.infinitive == "search for"@ + " "@ + object
        }),
{
    lemma_tools();
    lemma_no_server(tool);
}

/// Fetching names the host and not the page.
pub proof fn fetching_names_the_host(tool: Seq<char>, input: JsonView)
    requires
        tool == "WebFetch"@,
    ensures
        ({
            let words = hook::phrase_spec(tool, Some(input));
            let object = strings::trimmed(hook::host_spec(hook::text_of(input, "url"@)));
            &&& object.len() > 0 ==> words.present == "Fetching"@ + " "@ + object && words.past
                == "Fetched"@ + " "@ + object && words.infinitive == "fetch"@ + " "@ + object
        }),
{
    lemma_tools();
    lemma_no_server(tool);
}

/// Searching the web names the query.
pub proof fn searching_the_web_names_the_query(tool: Seq<char>, input: JsonView)
    requires
        tool == "WebSearch"@,
    ensures
        ({
            let words = hook::phrase_spec(tool, Some(input));
            let object = strings::trimmed(text::truncated(hook::text_of(input, "query"@), 40));
            &&& object.len() > 0 ==> words.present == "Searching the web for"@ + " "@ + object
                && words.past
                == "Searched the web for"@ + " "@ + object
                    && words.infinitive == "search the web for"@ + " "@ + object
        }),
{
    lemma_tools();
    lemma_no_server(tool);
}

/// Delegating names the agent that the work goes to.
pub proof fn delegating_names_the_agent(tool: Seq<char>, input: JsonView)
    requires
        tool == "Task"@ || tool == "Agent"@,
    ensures
        ({
            let words = hook::phrase_spec(tool, Some(input));
            let kind = hook::text_of(input, "subagent_type"@);
            let named = if kind.len() == 0 { "a subagent"@ } else { text::truncated(kind, 40) };
            let object = strings::trimmed(named);
            &&& object.len() > 0 ==> words.present == "Delegating to"@ + " "@ + object && words.past
                == "Heard back from"@ + " "@ + object
                    && words.infinitive == "delegate to"@ + " "@ + object
        }),
{
    lemma_tools();
    lemma_no_server(tool);
}

/// A skill is named.
pub proof fn a_skill_is_named(tool: Seq<char>, input: JsonView)
    requires
        tool == "Skill"@,
    ensures
        ({
            let words = hook::phrase_spec(tool, Some(input));
            let object = strings::trimmed(hook::text_of(input, "skill"@));
            &&& object.len() > 0 ==> words.present == "Running skill"@ + " "@ + object && words.past
                == "Ran skill"@ + " "@ + object && words.infinitive == "run skill"@ + " "@ + object
        }),
{
    lemma_tools();
    lemma_no_server(tool);
}

/// Whatever is done to the list of things to do, the list is updated.
pub proof fn the_list_is_updated(tool: Seq<char>, input: Option<JsonView>)
    requires
        tool == "TodoWrite"@ || tool == "TaskCreate"@ || tool == "TaskUpdate"@,
    ensures
        hook::phrase_spec(tool, input).present == "Updating"@ + " "@ + "tasks"@,
        hook::phrase_spec(tool, input).past == "Updated"@ + " "@ + "tasks"@,
        hook::phrase_spec(tool, input).infinitive == "update"@ + " "@ + "tasks"@,
{
    lemma_tools();
    lemma_no_server(tool);
    reveal_strlit("tasks");
    lemma_trimmed("tasks"@);
}

proof fn lemma_trimmed(s: Seq<char>)
    requires
        s.len() > 0,
        !strings::is_white(s[0]),
        !strings::is_white(s.last()),
    ensures
        strings::trimmed(s) == s,
{
    assert(!strings::white()(s[0]));
    assert(strings::trimmed_start(s) == s);
}

/// A tool that nobody knows goes by its own name.
pub proof fn an_unknown_tool_goes_by_its_name(tool: Seq<char>, input: Option<JsonView>)
    requires
        tool.len() > 0,
        tool[0] != 'm',
        tool != "Bash"@,
        tool != "PowerShell"@,
        tool != "Read"@,
        tool != "Edit"@,
        tool != "Write"@,
        tool != "NotebookEdit"@,
        tool != "NotebookRead"@,
        tool != "MultiEdit"@,
        tool != "Glob"@,
        tool != "Grep"@,
        tool != "WebFetch"@,
        tool != "WebSearch"@,
        tool != "Task"@,
        tool != "Agent"@,
        tool != "Skill"@,
        tool != "TodoWrite"@,
        tool != "TaskCreate"@,
        tool != "TaskUpdate"@,
        tool != "TaskList"@,
        tool != "TaskGet"@,
    ensures
        hook::phrase_spec(tool, input).present == tool,
        hook::phrase_spec(tool, input).past == tool + " finished"@,
        hook::phrase_spec(tool, input).infinitive == "use "@ + tool,
        hook::kind_spec(tool) == "Working"@,
{
    lemma_no_server(tool);
}

/// A tool of a server is called on it, by its own name with its words apart.
pub proof fn a_servers_tool_is_called_on_it(
    server: Seq<char>,
    name: Seq<char>,
    input: Option<JsonView>,
)
    requires
        !server.contains('_'),
        server.len() > 0,
        !strings::is_white(server[0]),
        name.len() > 0,
        name.last() != '_',
        !strings::is_white(name.last()),
    ensures
        ({
            let tool = "mcp__"@ + server + "__"@ + name;
            let words = hook::phrase_spec(tool, input);
            let spaced = with_spaces(name);
            &&& hook::kind_spec(tool) == "Calling "@ + server
            &&& words.present == "Calling"@ + " "@ + (server + ": "@ + spaced)
            &&& words.past == "Called"@ + " "@ + (server + ": "@ + spaced)
            &&& words.infinitive == "call"@ + " "@ + (server + ": "@ + spaced)
        }),
{
    reveal_strlit("mcp__");
    reveal_strlit("__");
    reveal_strlit(": ");
    let tool = "mcp__"@ + server + "__"@ + name;
    let rest = server + "__"@ + name;
    assert(tool.take(5) =~= "mcp__"@);
    assert(tool.skip(5) =~= rest);
    lemma_first_mark(server, name);
    assert(rest.take(server.len() as int) =~= server);
    assert(rest.skip(server.len() + 2int) =~= name);
    let spaced = with_spaces(name);
    assert(strings::replaced(name, '_', ' ') =~= spaced);
    assert(spaced.last() == name.last());
    lemma_trimmed(server + ": "@ + spaced);
}

/// A name with spaces for its underscores.
pub open spec fn with_spaces(name: Seq<char>) -> Seq<char> {
    Seq::new(
        name.len(),
        |i: int|
            if name[i] == '_' {
                ' '
            } else {
                name[i]
            },
    )
}

proof fn lemma_first_mark(server: Seq<char>, name: Seq<char>)
    requires
        !server.contains('_'),
    ensures
        strings::find_spec(server + "__"@ + name, "__"@) == Some(server.len() as int),
{
    reveal_strlit("__");
    let mark = "__"@;
    let rest = server + mark + name;
    let n = server.len() as int;
    strings::lemma_find(rest, mark);
    assert(rest.skip(n).take(2) =~= mark);
    assert(strings::begins(rest.skip(n), mark));
    let i = strings::find_spec(rest, mark)->0;
    if i < n {
        assert(rest.skip(i).take(2)[0] == rest[i]);
        assert(server.contains(server[i]));
    }
}

/// What a tool call counts as: reading, editing, running, browsing, delegating, a
/// skill or planning.
pub proof fn a_call_counts_as_what_it_does(tool: Seq<char>)
    requires
        tool.len() == 0 || tool[0] != 'm',
    ensures
        hook::kind_spec(tool) == "Reading"@ <==> tool == "Read"@ || tool == "Glob"@ || tool
            == "Grep"@ || tool == "NotebookRead"@,
        hook::kind_spec(tool) == "Editing"@ <==> tool == "Edit"@ || tool == "Write"@ || tool
            == "MultiEdit"@ || tool == "NotebookEdit"@,
        hook::kind_spec(tool) == "Running"@ <==> tool == "Bash"@ || tool == "PowerShell"@,
        hook::kind_spec(tool) == "Browsing"@ <==> tool == "WebFetch"@ || tool == "WebSearch"@,
        hook::kind_spec(tool) == "Delegating"@ <==> tool == "Task"@ || tool == "Agent"@,
        hook::kind_spec(tool) == "Running a skill"@ <==> tool == "Skill"@,
        hook::kind_spec(tool) == "Planning"@ <==> tool == "TodoWrite"@ || tool == "TaskCreate"@
            || tool == "TaskUpdate"@ || tool == "TaskList"@ || tool == "TaskGet"@,
{
    lemma_tools();
    lemma_kinds();
    lemma_no_server(tool);
}

/// The host of an address is what stands between its scheme and its path.
pub proof fn a_host_stands_before_its_path(scheme: Seq<char>, host: Seq<char>, path: Seq<char>)
    requires
        !scheme.contains('/'),
        !host.contains('/'),
        host.len() > 0,
        strings::has(path, "//"@) == false,
        path.len() > 0 ==> path[0] == '/',
    ensures
        hook::host_spec(scheme + "//"@ + host + path) == host,
        hook::host_spec(host + path) == host,
{
    reveal_strlit("//");
    let mark = "//"@;
    let tail = host + path;
    let url = scheme + mark + tail;
    assert(url =~= scheme + "//"@ + host + path);
    strings::lemma_find(tail, mark);
    strings::lemma_find(path, mark);
    if let Some(i) = strings::find_spec(tail, mark) {
        assert(tail.skip(i).take(2)[0] == tail[i]);
        if i < host.len() {
            assert(host.contains(host[i]));
        } else {
            assert(path.skip(i - host.len()) =~= tail.skip(i));
            assert(strings::begins(path.skip(i - host.len()), mark));
        }
    }
    lemma_no_slash_before(scheme, tail);
    assert(url.skip(scheme.len() + 2int) =~= tail);
    reveal_with_fuel(hook::schemeless, 3);
    assert(hook::schemeless(tail) == tail);
    assert(hook::schemeless(url) == tail);
    strings::lemma_position(tail, '/');
    let n = strings::position(tail, '/');
    assert(n == host.len()) by {
        if n < host.len() {
            assert(host.contains(host[n]));
        } else if n > host.len() {
            assert(tail[host.len() as int] == path[0]);
        }
    }
    assert(tail.take(n) =~= host);
}

proof fn lemma_no_slash_before(scheme: Seq<char>, tail: Seq<char>)
    requires
        !scheme.contains('/'),
    ensures
        strings::find_spec(scheme + "//"@ + tail, "//"@) == Some(scheme.len() as int),
{
    reveal_strlit("//");
    let mark = "//"@;
    let url = scheme + mark + tail;
    let n = scheme.len() as int;
    strings::lemma_find(url, mark);
    assert(url.skip(n).take(2) =~= mark);
    assert(strings::begins(url.skip(n), mark));
    let i = strings::find_spec(url, mark)->0;
    if i < n {
        assert(url.skip(i).take(2)[0] == url[i]);
        assert(scheme.contains(scheme[i]));
    }
}

/// A hook runs in the background where it is given a job folder, or told so.
pub proof fn the_background_is_told_by_the_environment(env: Seq<(String, String)>)
    ensures
        hook::background_spec(env) <==> ((hook::variable(env, "CLAUDE_JOB_DIR"@) matches Some(dir)
            && strings::trimmed(dir).len() > 0) || hook::variable(env, "CLAUDE_CODE_SESSION_KIND"@)
            == Some("bg"@) || hook::variable(env, "CLAUDE_CODE_SESSION_KIND"@) == Some(
            "background"@,
        )),
{
}

/// A variable has the first value that the environment gives it.
pub proof fn the_first_value_counts(env: Seq<(String, String)>, name: Seq<char>, i: int)
    requires
        0 <= i < env.len(),
        env[i].0@ == name,
        forall|j: int| 0 <= j < i ==> (#[trigger] env[j]).0@ != name,
    ensures
        hook::variable(env, name) == Some(env[i].1@),
    decreases i,
{
    if i > 0 {
        let rest = env.skip(1);
        assert(rest[i - 1] == env[i]);
        assert forall|j: int| 0 <= j < i - 1 implies (#[trigger] rest[j]).0@ != name by {
            assert(rest[j] == env[j + 1]);
        }
        assert(env[0].0@ != name);
        the_first_value_counts(rest, name, i - 1);
    }
}

} // verus!
