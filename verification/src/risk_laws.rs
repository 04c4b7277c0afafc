//! Which commands cannot be taken back, said of whole command lines.

use vstd::prelude::*;
use vstd::string::*;

use crate::risk;
use crate::risk::Quoting;
use crate::strings;
use crate::text;

verus! {

// --- plain command lines -------------------------------------------------------
/// A character of a program's usual name.
pub open spec fn program_char(c: char) -> bool {
    'a' <= c <= 'z' || '0' <= c <= '9' || c == '-'
}

pub open spec fn program_word(s: Seq<char>) -> bool {
    s.len() > 0 && forall|i: int| 0 <= i < s.len() ==> program_char(#[trigger] s[i])
}

/// A character that has no meaning of its own to a shell.
pub open spec fn plain_char(c: char) -> bool {
    !strings::is_white(c) && c != '"' && c != '\'' && c != ';' && c != '&' && c != '|'
}

pub open spec fn plain_word(s: Seq<char>) -> bool {
    s.len() > 0 && forall|i: int| 0 <= i < s.len() ==> plain_char(#[trigger] s[i])
}

pub open spec fn plain_words(words: Seq<Seq<char>>) -> bool {
    forall|i: int| 0 <= i < words.len() ==> plain_word(#[trigger] words[i])
}

/// Words on one line, with a blank between them.
pub open spec fn line_of(words: Seq<Seq<char>>) -> Seq<char>
    decreases words.len(),
{
    if words.len() == 0 {
        seq![]
    } else if words.len() == 1 {
        words[0]
    } else {
        words[0] + seq![' '] + line_of(words.skip(1))
    }
}

/// One of the words is this one, whatever its case.
pub open spec fn says(words: Seq<Seq<char>>, word: Seq<char>) -> bool {
    exists|i: int| 0 <= i < words.len() && strings::lowered(#[trigger] words[i]) == word
}

/// One of the words begins like this, whatever its case.
pub open spec fn says_like(words: Seq<Seq<char>>, start: Seq<char>) -> bool {
    exists|i: int|
        0 <= i < words.len() && strings::begins(strings::lowered(#[trigger] words[i]), start)
}

/// A cluster of short flags with this letter among them: `-rf` has an `r`.
pub open spec fn cluster(word: Seq<char>, letter: char) -> bool {
    &&& word.len() > 1
    &&& word[0] == '-'
    &&& word[1] != '-'
    &&& exists|k: int| 1 <= k < word.len() && word[k] == letter
}

pub open spec fn clustered(words: Seq<Seq<char>>, letter: char) -> bool {
    exists|i: int| 0 <= i < words.len() && cluster(strings::lowered(#[trigger] words[i]), letter)
}

/// The first word after the program is this one, whatever its case.
pub open spec fn first_is(args: Seq<Seq<char>>, word: Seq<char>) -> bool {
    args.len() > 0 && strings::lowered(args[0]) == word
}

pub open spec fn second_is(args: Seq<Seq<char>>, word: Seq<char>) -> bool {
    args.len() > 1 && strings::lowered(args[1]) == word
}

/// The names of programs are different names: most by their length, the others
/// by a letter.
proof fn lemma_programs()
    ensures
        "rm"@.len() == 2,
        "rmdir"@.len() == 5,
        "rd"@.len() == 2,
        "del"@.len() == 3,
        "remove-item"@.len() == 11,
        "git"@.len() == 3,
        "npm"@.len() == 3,
        "pnpm"@.len() == 4,
        "yarn"@.len() == 4,
        "bun"@.len() == 3,
        "cargo"@.len() == 5,
        "twine"@.len() == 5,
        "gh"@.len() == 2,
        "terraform"@.len() == 9,
        "tofu"@.len() == 4,
        "kubectl"@.len() == 7,
        "helm"@.len() == 4,
        "docker"@.len() == 6,
        "dd"@.len() == 2,
        "mkfs"@.len() == 4,
        "format-volume"@.len() == 13,
        "shutdown"@.len() == 8,
        "reboot"@.len() == 6,
        "psql"@.len() == 4,
        "mysql"@.len() == 5,
        "sqlite3"@.len() == 7,
        "mongosh"@.len() == 7,
        "mongo"@.len() == 5,
        "sudo"@.len() == 4,
        "doas"@.len() == 4,
        "env"@.len() == 3,
        "nohup"@.len() == 5,
        "time"@.len() == 4,
        "command"@.len() == 7,
        "exec"@.len() == 4,
        "then"@.len() == 4,
        "do"@.len() == 2,
        "bash"@.len() == 4,
        "powershell"@.len() == 10,
        "cmd"@.len() == 3,
        "rm"@ != "rd"@,
        "rm"@ != "gh"@,
        "rm"@ != "dd"@,
        "rm"@ != "do"@,
        "rmdir"@ != "cargo"@,
        "rmdir"@ != "twine"@,
        "rmdir"@ != "mysql"@,
        "rmdir"@ != "mongo"@,
        "rmdir"@ != "nohup"@,
        "rd"@ != "gh"@,
        "rd"@ != "dd"@,
        "rd"@ != "do"@,
        "del"@ != "git"@,
        "del"@ != "npm"@,
        "del"@ != "bun"@,
        "del"@ != "env"@,
        "del"@ != "cmd"@,
        "git"@ != "npm"@,
        "git"@ != "bun"@,
        "git"@ != "env"@,
        "git"@ != "cmd"@,
        "npm"@ != "bun"@,
        "npm"@ != "env"@,
        "npm"@ != "cmd"@,
        "pnpm"@ != "yarn"@,
        "pnpm"@ != "tofu"@,
        "pnpm"@ != "helm"@,
        "pnpm"@ != "mkfs"@,
        "pnpm"@ != "psql"@,
        "pnpm"@ != "sudo"@,
        "pnpm"@ != "doas"@,
        "pnpm"@ != "time"@,
        "pnpm"@ != "exec"@,
        "pnpm"@ != "then"@,
        "pnpm"@ != "bash"@,
        "yarn"@ != "tofu"@,
        "yarn"@ != "helm"@,
        "yarn"@ != "mkfs"@,
        "yarn"@ != "psql"@,
        "yarn"@ != "sudo"@,
        "yarn"@ != "doas"@,
        "yarn"@ != "time"@,
        "yarn"@ != "exec"@,
        "yarn"@ != "then"@,
        "yarn"@ != "bash"@,
        "bun"@ != "env"@,
        "bun"@ != "cmd"@,
        "cargo"@ != "twine"@,
        "cargo"@ != "mysql"@,
        "cargo"@ != "mongo"@,
        "cargo"@ != "nohup"@,
        "twine"@ != "mysql"@,
        "twine"@ != "mongo"@,
        "twine"@ != "nohup"@,
        "gh"@ != "dd"@,
        "gh"@ != "do"@,
        "tofu"@ != "helm"@,
        "tofu"@ != "mkfs"@,
        "tofu"@ != "psql"@,
        "tofu"@ != "sudo"@,
        "tofu"@ != "doas"@,
        "tofu"@ != "time"@,
        "tofu"@ != "exec"@,
        "tofu"@ != "then"@,
        "tofu"@ != "bash"@,
        "kubectl"@ != "sqlite3"@,
        "kubectl"@ != "mongosh"@,
        "kubectl"@ != "command"@,
        "helm"@ != "mkfs"@,
        "helm"@ != "psql"@,
        "helm"@ != "sudo"@,
        "helm"@ != "doas"@,
        "helm"@ != "time"@,
        "helm"@ != "exec"@,
        "helm"@ != "then"@,
        "helm"@ != "bash"@,
        "docker"@ != "reboot"@,
        "dd"@ != "do"@,
        "mkfs"@ != "psql"@,
        "mkfs"@ != "sudo"@,
        "mkfs"@ != "doas"@,
        "mkfs"@ != "time"@,
        "mkfs"@ != "exec"@,
        "mkfs"@ != "then"@,
        "mkfs"@ != "bash"@,
        "psql"@ != "sudo"@,
        "psql"@ != "doas"@,
        "psql"@ != "time"@,
        "psql"@ != "exec"@,
        "psql"@ != "then"@,
        "psql"@ != "bash"@,
        "mysql"@ != "mongo"@,
        "mysql"@ != "nohup"@,
        "sqlite3"@ != "mongosh"@,
        "sqlite3"@ != "command"@,
        "mongosh"@ != "command"@,
        "mongo"@ != "nohup"@,
        "sudo"@ != "doas"@,
        "sudo"@ != "time"@,
        "sudo"@ != "exec"@,
        "sudo"@ != "then"@,
        "sudo"@ != "bash"@,
        "doas"@ != "time"@,
        "doas"@ != "exec"@,
        "doas"@ != "then"@,
        "doas"@ != "bash"@,
        "env"@ != "cmd"@,
        "time"@ != "exec"@,
        "time"@ != "then"@,
        "time"@ != "bash"@,
        "exec"@ != "then"@,
        "exec"@ != "bash"@,
        "then"@ != "bash"@,
{
    reveal_strlit("rm");
    reveal_strlit("rmdir");
    reveal_strlit("rd");
    reveal_strlit("del");
    reveal_strlit("remove-item");
    reveal_strlit("git");
    reveal_strlit("npm");
    reveal_strlit("pnpm");
    reveal_strlit("yarn");
    reveal_strlit("bun");
    reveal_strlit("cargo");
    reveal_strlit("twine");
    reveal_strlit("gh");
    reveal_strlit("terraform");
    reveal_strlit("tofu");
    reveal_strlit("kubectl");
    reveal_strlit("helm");
    reveal_strlit("docker");
    reveal_strlit("dd");
    reveal_strlit("mkfs");
    reveal_strlit("format-volume");
    reveal_strlit("shutdown");
    reveal_strlit("reboot");
    reveal_strlit("psql");
    reveal_strlit("mysql");
    reveal_strlit("sqlite3");
    reveal_strlit("mongosh");
    reveal_strlit("mongo");
    reveal_strlit("sudo");
    reveal_strlit("doas");
    reveal_strlit("env");
    reveal_strlit("nohup");
    reveal_strlit("time");
    reveal_strlit("command");
    reveal_strlit("exec");
    reveal_strlit("then");
    reveal_strlit("do");
    reveal_strlit("bash");
    reveal_strlit("powershell");
    reveal_strlit("cmd");
    assert("rm"@[1] != "rd"@[1]);
    assert("rm"@[0] != "gh"@[0]);
    assert("rm"@[0] != "dd"@[0]);
    assert("rm"@[0] != "do"@[0]);
    assert("rmdir"@[0] != "cargo"@[0]);
    assert("rmdir"@[0] != "twine"@[0]);
    assert("rmdir"@[0] != "mysql"@[0]);
    assert("rmdir"@[0] != "mongo"@[0]);
    assert("rmdir"@[0] != "nohup"@[0]);
    assert("rd"@[0] != "gh"@[0]);
    assert("rd"@[0] != "dd"@[0]);
    assert("rd"@[0] != "do"@[0]);
    assert("del"@[0] != "git"@[0]);
    assert("del"@[0] != "npm"@[0]);
    assert("del"@[0] != "bun"@[0]);
    assert("del"@[0] != "env"@[0]);
    assert("del"@[0] != "cmd"@[0]);
    assert("git"@[0] != "npm"@[0]);
    assert("git"@[0] != "bun"@[0]);
    assert("git"@[0] != "env"@[0]);
    assert("git"@[0] != "cmd"@[0]);
    assert("npm"@[0] != "bun"@[0]);
    assert("npm"@[0] != "env"@[0]);
    assert("npm"@[0] != "cmd"@[0]);
    assert("pnpm"@[0] != "yarn"@[0]);
    assert("pnpm"@[0] != "tofu"@[0]);
    assert("pnpm"@[0] != "helm"@[0]);
    assert("pnpm"@[0] != "mkfs"@[0]);
    assert("pnpm"@[1] != "psql"@[1]);
    assert("pnpm"@[0] != "sudo"@[0]);
    assert("pnpm"@[0] != "doas"@[0]);
    assert("pnpm"@[0] != "time"@[0]);
    assert("pnpm"@[0] != "exec"@[0]);
    assert("pnpm"@[0] != "then"@[0]);
    assert("pnpm"@[0] != "bash"@[0]);
    assert("yarn"@[0] != "tofu"@[0]);
    assert("yarn"@[0] != "helm"@[0]);
    assert("yarn"@[0] != "mkfs"@[0]);
    assert("yarn"@[0] != "psql"@[0]);
    assert("yarn"@[0] != "sudo"@[0]);
    assert("yarn"@[0] != "doas"@[0]);
    assert("yarn"@[0] != "time"@[0]);
    assert("yarn"@[0] != "exec"@[0]);
    assert("yarn"@[0] != "then"@[0]);
    assert("yarn"@[0] != "bash"@[0]);
    assert("bun"@[0] != "env"@[0]);
    assert("bun"@[0] != "cmd"@[0]);
    assert("cargo"@[0] != "twine"@[0]);
    assert("cargo"@[0] != "mysql"@[0]);
    assert("cargo"@[0] != "mongo"@[0]);
    assert("cargo"@[0] != "nohup"@[0]);
    assert("twine"@[0] != "mysql"@[0]);
    assert("twine"@[0] != "mongo"@[0]);
    assert("twine"@[0] != "nohup"@[0]);
    assert("gh"@[0] != "dd"@[0]);
    assert("gh"@[0] != "do"@[0]);
    assert("tofu"@[0] != "helm"@[0]);
    assert("tofu"@[0] != "mkfs"@[0]);
    assert("tofu"@[0] != "psql"@[0]);
    assert("tofu"@[0] != "sudo"@[0]);
    assert("tofu"@[0] != "doas"@[0]);
    assert("tofu"@[1] != "time"@[1]);
    assert("tofu"@[0] != "exec"@[0]);
    assert("tofu"@[1] != "then"@[1]);
    assert("tofu"@[0] != "bash"@[0]);
    assert("kubectl"@[0] != "sqlite3"@[0]);
    assert("kubectl"@[0] != "mongosh"@[0]);
    assert("kubectl"@[0] != "command"@[0]);
    assert("helm"@[0] != "mkfs"@[0]);
    assert("helm"@[0] != "psql"@[0]);
    assert("helm"@[0] != "sudo"@[0]);
    assert("helm"@[0] != "doas"@[0]);
    assert("helm"@[0] != "time"@[0]);
    assert("helm"@[0] != "exec"@[0]);
    assert("helm"@[0] != "then"@[0]);
    assert("helm"@[0] != "bash"@[0]);
    assert("docker"@[0] != "reboot"@[0]);
    assert("dd"@[1] != "do"@[1]);
    assert("mkfs"@[0] != "psql"@[0]);
    assert("mkfs"@[0] != "sudo"@[0]);
    assert("mkfs"@[0] != "doas"@[0]);
    assert("mkfs"@[0] != "time"@[0]);
    assert("mkfs"@[0] != "exec"@[0]);
    assert("mkfs"@[0] != "then"@[0]);
    assert("mkfs"@[0] != "bash"@[0]);
    assert("psql"@[0] != "sudo"@[0]);
    assert("psql"@[0] != "doas"@[0]);
    assert("psql"@[0] != "time"@[0]);
    assert("psql"@[0] != "exec"@[0]);
    assert("psql"@[0] != "then"@[0]);
    assert("psql"@[0] != "bash"@[0]);
    assert("mysql"@[1] != "mongo"@[1]);
    assert("mysql"@[0] != "nohup"@[0]);
    assert("sqlite3"@[0] != "mongosh"@[0]);
    assert("sqlite3"@[0] != "command"@[0]);
    assert("mongosh"@[0] != "command"@[0]);
    assert("mongo"@[0] != "nohup"@[0]);
    assert("sudo"@[0] != "doas"@[0]);
    assert("sudo"@[0] != "time"@[0]);
    assert("sudo"@[0] != "exec"@[0]);
    assert("sudo"@[0] != "then"@[0]);
    assert("sudo"@[0] != "bash"@[0]);
    assert("doas"@[0] != "time"@[0]);
    assert("doas"@[0] != "exec"@[0]);
    assert("doas"@[0] != "then"@[0]);
    assert("doas"@[0] != "bash"@[0]);
    assert("env"@[0] != "cmd"@[0]);
    assert("time"@[0] != "exec"@[0]);
    assert("time"@[1] != "then"@[1]);
    assert("time"@[0] != "bash"@[0]);
    assert("exec"@[0] != "then"@[0]);
    assert("exec"@[0] != "bash"@[0]);
    assert("then"@[0] != "bash"@[0]);
}

/// So are the commands of `git`.
proof fn lemma_commands()
    ensures
        "push"@.len() == 4,
        "reset"@.len() == 5,
        "clean"@.len() == 5,
        "branch"@.len() == 6,
        "filter-branch"@.len() == 13,
        "filter-repo"@.len() == 11,
        "reset"@ != "clean"@,
{
    reveal_strlit("push");
    reveal_strlit("reset");
    reveal_strlit("clean");
    reveal_strlit("branch");
    reveal_strlit("filter-branch");
    reveal_strlit("filter-repo");
    assert("reset"@[0] != "clean"@[0]);
}

proof fn lemma_program_words()
    ensures
        program_word("rm"@),
        program_word("rmdir"@),
        program_word("rd"@),
        program_word("del"@),
        program_word("remove-item"@),
        program_word("git"@),
        program_word("npm"@),
        program_word("pnpm"@),
        program_word("yarn"@),
        program_word("bun"@),
        program_word("cargo"@),
        program_word("twine"@),
        program_word("gh"@),
        program_word("terraform"@),
        program_word("tofu"@),
        program_word("kubectl"@),
        program_word("helm"@),
        program_word("docker"@),
        program_word("dd"@),
        program_word("mkfs"@),
        program_word("format-volume"@),
        program_word("shutdown"@),
        program_word("reboot"@),
        program_word("psql"@),
        program_word("mysql"@),
        program_word("sqlite3"@),
        program_word("mongosh"@),
        program_word("mongo"@),
        program_word("bash"@),
{
    reveal_strlit("rm");
    assert forall|i: int| 0 <= i < "rm"@.len() implies program_char(#[trigger] "rm"@[i]) by {
        assert(i == 0 || i == 1);
    }
    reveal_strlit("rmdir");
    assert forall|i: int| 0 <= i < "rmdir"@.len() implies program_char(#[trigger] "rmdir"@[i]) by {
        assert(i == 0 || i == 1 || i == 2 || i == 3 || i == 4);
    }
    reveal_strlit("rd");
    assert forall|i: int| 0 <= i < "rd"@.len() implies program_char(#[trigger] "rd"@[i]) by {
        assert(i == 0 || i == 1);
    }
    reveal_strlit("del");
    assert forall|i: int| 0 <= i < "del"@.len() implies program_char(#[trigger] "del"@[i]) by {
        assert(i == 0 || i == 1 || i == 2);
    }
    reveal_strlit("remove-item");
    assert forall|i: int| 0 <= i < "remove-item"@.len() implies program_char(#[trigger] "remove-item"@[i]) by {
        assert(i == 0 || i == 1 || i == 2 || i == 3 || i == 4 || i == 5 || i == 6 || i == 7
            || i == 8 || i == 9 || i == 10);
    }
    reveal_strlit("git");
    assert forall|i: int| 0 <= i < "git"@.len() implies program_char(#[trigger] "git"@[i]) by {
        assert(i == 0 || i == 1 || i == 2);
    }
    reveal_strlit("npm");
    assert forall|i: int| 0 <= i < "npm"@.len() implies program_char(#[trigger] "npm"@[i]) by {
        assert(i == 0 || i == 1 || i == 2);
    }
    reveal_strlit("pnpm");
    assert forall|i: int| 0 <= i < "pnpm"@.len() implies program_char(#[trigger] "pnpm"@[i]) by {
        assert(i == 0 || i == 1 || i == 2 || i == 3);
    }
    reveal_strlit("yarn");
    assert forall|i: int| 0 <= i < "yarn"@.len() implies program_char(#[trigger] "yarn"@[i]) by {
        assert(i == 0 || i == 1 || i == 2 || i == 3);
    }
    reveal_strlit("bun");
    assert forall|i: int| 0 <= i < "bun"@.len() implies program_char(#[trigger] "bun"@[i]) by {
        assert(i == 0 || i == 1 || i == 2);
    }
    reveal_strlit("cargo");
    assert forall|i: int| 0 <= i < "cargo"@.len() implies program_char(#[trigger] "cargo"@[i]) by {
        assert(i == 0 || i == 1 || i == 2 || i == 3 || i == 4);
    }
    reveal_strlit("twine");
    assert forall|i: int| 0 <= i < "twine"@.len() implies program_char(#[trigger] "twine"@[i]) by {
        assert(i == 0 || i == 1 || i == 2 || i == 3 || i == 4);
    }
    reveal_strlit("gh");
    assert forall|i: int| 0 <= i < "gh"@.len() implies program_char(#[trigger] "gh"@[i]) by {
        assert(i == 0 || i == 1);
    }
    reveal_strlit("terraform");
    assert forall|i: int| 0 <= i < "terraform"@.len() implies program_char(#[trigger] "terraform"@[i]) by {
        assert(i == 0 || i == 1 || i == 2 || i == 3 || i == 4 || i == 5 || i == 6 || i == 7
            || i == 8);
    }
    reveal_strlit("tofu");
    assert forall|i: int| 0 <= i < "tofu"@.len() implies program_char(#[trigger] "tofu"@[i]) by {
        assert(i == 0 || i == 1 || i == 2 || i == 3);
    }
    reveal_strlit("kubectl");
    assert forall|i: int| 0 <= i < "kubectl"@.len() implies program_char(#[trigger] "kubectl"@[i]) by {
        assert(i == 0 || i == 1 || i == 2 || i == 3 || i == 4 || i == 5 || i == 6);
    }
    reveal_strlit("helm");
    assert forall|i: int| 0 <= i < "helm"@.len() implies program_char(#[trigger] "helm"@[i]) by {
        assert(i == 0 || i == 1 || i == 2 || i == 3);
    }
    reveal_strlit("docker");
    assert forall|i: int| 0 <= i < "docker"@.len() implies program_char(#[trigger] "docker"@[i]) by {
        assert(i == 0 || i == 1 || i == 2 || i == 3 || i == 4 || i == 5);
    }
    reveal_strlit("dd");
    assert forall|i: int| 0 <= i < "dd"@.len() implies program_char(#[trigger] "dd"@[i]) by {
        assert(i == 0 || i == 1);
    }
    reveal_strlit("mkfs");
    assert forall|i: int| 0 <= i < "mkfs"@.len() implies program_char(#[trigger] "mkfs"@[i]) by {
        assert(i == 0 || i == 1 || i == 2 || i == 3);
    }
    reveal_strlit("format-volume");
    assert forall|i: int| 0 <= i < "format-volume"@.len() implies program_char(#[trigger] "format-volume"@[i]) by {
        assert(i == 0 || i == 1 || i == 2 || i == 3 || i == 4 || i == 5 || i == 6 || i == 7
            || i == 8 || i == 9 || i == 10 || i == 11 || i == 12);
    }
    reveal_strlit("shutdown");
    assert forall|i: int| 0 <= i < "shutdown"@.len() implies program_char(#[trigger] "shutdown"@[i]) by {
        assert(i == 0 || i == 1 || i == 2 || i == 3 || i == 4 || i == 5 || i == 6 || i == 7);
    }
    reveal_strlit("reboot");
    assert forall|i: int| 0 <= i < "reboot"@.len() implies program_char(#[trigger] "reboot"@[i]) by {
        assert(i == 0 || i == 1 || i == 2 || i == 3 || i == 4 || i == 5);
    }
    reveal_strlit("psql");
    assert forall|i: int| 0 <= i < "psql"@.len() implies program_char(#[trigger] "psql"@[i]) by {
        assert(i == 0 || i == 1 || i == 2 || i == 3);
    }
    reveal_strlit("mysql");
    assert forall|i: int| 0 <= i < "mysql"@.len() implies program_char(#[trigger] "mysql"@[i]) by {
        assert(i == 0 || i == 1 || i == 2 || i == 3 || i == 4);
    }
    reveal_strlit("sqlite3");
    assert forall|i: int| 0 <= i < "sqlite3"@.len() implies program_char(#[trigger] "sqlite3"@[i]) by {
        assert(i == 0 || i == 1 || i == 2 || i == 3 || i == 4 || i == 5 || i == 6);
    }
    reveal_strlit("mongosh");
    assert forall|i: int| 0 <= i < "mongosh"@.len() implies program_char(#[trigger] "mongosh"@[i]) by {
        assert(i == 0 || i == 1 || i == 2 || i == 3 || i == 4 || i == 5 || i == 6);
    }
    reveal_strlit("mongo");
    assert forall|i: int| 0 <= i < "mongo"@.len() implies program_char(#[trigger] "mongo"@[i]) by {
        assert(i == 0 || i == 1 || i == 2 || i == 3 || i == 4);
    }
    reveal_strlit("bash");
    assert forall|i: int| 0 <= i < "bash"@.len() implies program_char(#[trigger] "bash"@[i]) by {
        assert(i == 0 || i == 1 || i == 2 || i == 3);
    }
}

proof fn lemma_words(words: Seq<Seq<char>>)
    requires
        plain_words(words),
    ensures
        strings::words_spec(line_of(words)) == words,
        forall|i: int|
            0 <= i < line_of(words).len() ==> plain_char(#[trigger] line_of(words)[i]) || line_of(
                words,
            )[i] == ' ',
    decreases words.len(),
{
    let line = line_of(words);
    if words.len() == 0 {
        assert(strings::words_spec(line) =~= words);
    } else {
        let first = words[0];
        let n = first.len() as int;
        let more = words.skip(1);
        assert forall|i: int| 0 <= i < more.len() implies plain_word(#[trigger] more[i]) by {
            assert(more[i] == words[i + 1]);
        }
        lemma_words(more);
        let rest = line.skip(n);
        assert(plain_word(words[0]));
        assert(line[0] == first[0]);
        assert(!strings::white()(line[0]));
        assert(strings::trimmed_start(line) == line);
        strings::lemma_word_len(line);
        let k = strings::word_len(line);
        assert forall|i: int| 0 <= i < n implies !strings::is_white(#[trigger] line[i]) by {
            assert(line[i] == first[i]);
            assert(plain_char(first[i]));
        }
        if words.len() > 1 {
            assert(line[n] == ' ');
            assert(k == n);
            assert(rest =~= seq![' '] + line_of(more));
            assert(rest.skip(1) =~= line_of(more));
            assert(strings::white()(rest[0]));
            assert(strings::trimmed_start(rest) == strings::trimmed_start(line_of(more)));
            assert(strings::words_spec(rest) == strings::words_spec(line_of(more)));
        } else {
            assert(k == n);
            assert(rest =~= seq![]);
            assert(more =~= seq![]);
            assert(strings::words_spec(rest) =~= more);
        }
        assert(line.take(n) =~= first);
        assert(strings::words_spec(line) =~= seq![first] + more);
        assert(seq![first] + more =~= words);
        assert forall|i: int| 0 <= i < line.len() implies plain_char(#[trigger] line[i]) || line[i]
            == ' ' by {
            if i < n {
                assert(line[i] == first[i]);
            } else if i > n {
                assert(line[i] == line_of(more)[i - n - 1]);
            }
        }
    }
}

/// A line without quotes and separators is one command.
proof fn lemma_one_segment(line: Seq<char>, current: Seq<char>)
    requires
        forall|i: int| 0 <= i < line.len() ==> plain_char(#[trigger] line[i]) || line[i] == ' ',
    ensures
        risk::segments_from(line, current, false, false) == seq![current + line],
    decreases line.len(),
{
    if line.len() == 0 {
        assert(current + line =~= current);
    } else {
        let rest = line.skip(1);
        assert(plain_char(line[0]) || line[0] == ' ');
        assert forall|i: int| 0 <= i < rest.len() implies plain_char(#[trigger] rest[i]) || rest[i]
            == ' ' by {
            assert(rest[i] == line[i + 1]);
        }
        lemma_one_segment(rest, current.push(line[0]));
        assert(current.push(line[0]) + rest =~= current + line);
    }
}

proof fn lemma_unquoted(words: Seq<Seq<char>>)
    requires
        plain_words(words),
    ensures
        risk::unquoted_all(words) == words,
    decreases words.len(),
{
    if words.len() > 0 {
        let before = words.drop_last();
        let last = words.last();
        assert(last == words[words.len() - 1]);
        assert forall|i: int| 0 <= i < before.len() implies plain_word(#[trigger] before[i]) by {
            assert(before[i] == words[i]);
        }
        lemma_unquoted(before);
        lemma_bare(last);
        assert(before.push(last) =~= words);
    } else {
        assert(risk::unquoted_all(words) =~= words);
    }
}

proof fn lemma_bare(word: Seq<char>)
    requires
        plain_word(word),
    ensures
        risk::unquoted(word) == word,
{
    let f = strings::one_of(risk::quotes());
    assert(plain_char(word[0]));
    assert(plain_char(word[word.len() - 1]));
    assert(!f(word[0]));
    assert(strings::drop_start(word, f) == word);
    assert(!f(word.last()));
}

/// A program goes by its name.
proof fn lemma_named(name: Seq<char>)
    requires
        program_word(name),
    ensures
        plain_word(name),
        strings::lowered(name) == name,
        risk::program_spec(name) == name,
        !risk::is_assignment(name),
{
    assert forall|i: int| 0 <= i < name.len() implies plain_char(#[trigger] name[i]) by {
        assert(program_char(name[i]));
    }
    assert forall|i: int| 0 <= i < name.len() implies (#[trigger] name[i]) as u32 <= 0x7f by {
        assert(program_char(name[i]));
    }
    assert(strings::ascii_lowered(name) =~= name) by {
        assert forall|i: int| 0 <= i < name.len() implies strings::ascii_lower(
            #[trigger] name[i],
        ) == name[i] by {
            assert(program_char(name[i]));
        }
    }
    let k = strings::behind_last(name, text::separators());
    strings::lemma_behind_last(name, text::separators());
    if k > 0 {
        assert(program_char(name[k - 1]));
    }
    assert(name.skip(0) =~= name);
    reveal_strlit(".exe");
    if name.len() >= 4 && strings::finishes(name, ".exe"@) {
        assert(name.skip(name.len() - 4)[0] == ".exe"@[0]);
        assert(program_char(name[name.len() - 4]));
    }
    strings::lemma_position(name, '=');
    let n = strings::position(name, '=');
    if n < name.len() {
        assert(program_char(name[n]));
    }
}

/// A program with plain arguments is judged by its name and its arguments.
proof fn lemma_judged(program: Seq<char>, args: Seq<Seq<char>>)
    requires
        program_word(program),
        plain_words(args),
        line_of(seq![program] + args).len() <= 4096,
        program != "sudo"@,
        program != "doas"@,
        program != "env"@,
        program != "nohup"@,
        program != "time"@,
        program != "command"@,
        program != "exec"@,
        program != "then"@,
        program != "do"@,
        program != "bash"@,
        program != "powershell"@,
        program != "cmd"@,
    ensures
        risk::reason_of(line_of(seq![program] + args)) == risk::program_reason(
            program,
            args,
            line_of(seq![program] + args),
        ),
{
    let words = seq![program] + args;
    let line = line_of(words);
    lemma_named(program);
    assert forall|i: int| 0 <= i < words.len() implies plain_word(#[trigger] words[i]) by {
        if i > 0 {
            assert(words[i] == args[i - 1]);
        }
    }
    lemma_words(words);
    lemma_one_segment(line, seq![]);
    assert(seq![] + line =~= line);
    lemma_unquoted(words);
    assert(risk::command_words_spec(line) == words);
    assert(words.skip(1) =~= args);
    lemma_no_shell(program, line);
    assert(risk::segment_reason(line) == risk::program_reason(program, args, line));
    let one = seq![line];
    let reason = |s: Seq<char>| risk::segment_reason(s);
    assert(one.skip(1) =~= seq![]);
    reveal_with_fuel(risk::first_reason, 2);
    assert(risk::first_reason(one, reason) == reason(line));
}

proof fn lemma_no_shell(program: Seq<char>, s: Seq<char>)
    requires
        program != "bash"@,
        program != "powershell"@,
        program != "cmd"@,
    ensures
        risk::after_flag(program, s) is None,
    decreases s.len(),
{
    strings::lemma_drop_start(s, strings::white());
    let t = strings::trimmed_start(s);
    strings::lemma_word_len(t);
    let n = strings::word_len(t);
    if t.len() > 0 {
        assert(!strings::white()(t[0]));
        assert(n > 0);
        lemma_no_shell(program, t.skip(n));
    }
}

/// What the arguments say, in lower case.
proof fn lemma_args(args: Seq<Seq<char>>)
    ensures
        forall|w: Seq<char>| #[trigger] risk::lowered_all(args).contains(w) <==> says(args, w),
        forall|w: Seq<char>| #[trigger]
            risk::any_begins(risk::lowered_all(args), w) <==> says_like(args, w),
        forall|c: char| c != '-' ==> (#[trigger] risk::any_short_flag(risk::lowered_all(args), c)
            <==> clustered(args, c)),
        forall|w: Seq<char>| #[trigger]
            risk::leads(risk::lowered_all(args), w) <==> first_is(args, w),
        forall|w: Seq<char>|
            args.len() > 0 ==> (#[trigger] risk::leads(risk::lowered_all(args).skip(1), w)
                <==> second_is(args, w)),
{
    let low = risk::lowered_all(args);
    assert forall|w: Seq<char>| #[trigger] low.contains(w) <==> says(args, w) by {
        if low.contains(w) {
            let i = choose|i: int| 0 <= i < low.len() && low[i] == w;
            assert(strings::lowered(args[i]) == w);
        }
        if says(args, w) {
            let i = choose|i: int|
                0 <= i < args.len() && strings::lowered(#[trigger] args[i]) == w;
            assert(low[i] == w);
        }
    }
    assert forall|w: Seq<char>| #[trigger] risk::any_begins(low, w) <==> says_like(args, w) by {
        if risk::any_begins(low, w) {
            let i = choose|i: int| 0 <= i < low.len() && strings::begins(#[trigger] low[i], w);
            assert(strings::begins(strings::lowered(args[i]), w));
        }
        if says_like(args, w) {
            let i = choose|i: int|
                0 <= i < args.len() && strings::begins(strings::lowered(#[trigger] args[i]), w);
            assert(strings::begins(low[i], w));
        }
    }
    assert forall|c: char| c != '-' implies (#[trigger] risk::any_short_flag(low, c) <==> clustered(
        args,
        c,
    )) by {
        if risk::any_short_flag(low, c) {
            let i = choose|i: int| 0 <= i < low.len() && risk::short_flag(#[trigger] low[i], c);
            lemma_cluster(low[i], c);
            assert(cluster(strings::lowered(args[i]), c));
        }
        if clustered(args, c) {
            let i = choose|i: int|
                0 <= i < args.len() && cluster(strings::lowered(#[trigger] args[i]), c);
            lemma_cluster(low[i], c);
            assert(risk::short_flag(low[i], c));
        }
    }
}

proof fn lemma_cluster(word: Seq<char>, letter: char)
    requires
        letter != '-',
    ensures
        risk::short_flag(word, letter) <==> cluster(word, letter),
{
    reveal_strlit("-");
    reveal_strlit("--");
    let tail = word.skip(1);
    if word.len() > 0 {
        assert(word.take(1)[0] == word[0]);
        if word[0] == '-' {
            assert(word.take(1) =~= "-"@);
        }
    }
    if word.len() > 1 {
        assert(word.take(2)[0] == word[0] && word.take(2)[1] == word[1]);
        if word[0] == '-' && word[1] == '-' {
            assert(word.take(2) =~= "--"@);
        }
    }
    if word.len() > 0 && tail.contains(letter) {
        let k = choose|k: int| 0 <= k < tail.len() && tail[k] == letter;
        assert(word[k + 1] == letter);
    }
    if cluster(word, letter) {
        let k = choose|k: int| 1 <= k < word.len() && word[k] == letter;
        assert(tail[k - 1] == letter);
    }
}

// --- which commands --------------------------------------------------------------
/// `rm` is flagged exactly when it is asked both to go into folders and not to
/// ask: one of the two alone can be taken back, or is asked about.
pub proof fn rm_is_flagged_when_recursive_and_forced(program: Seq<char>, args: Seq<Seq<char>>)
    requires
        program == "rm"@,
        plain_words(args),
        line_of(seq![program] + args).len() <= 4096,
    ensures
        ({
            let line = line_of(seq![program] + args);
            risk::reason_of(line) == (if (clustered(args, 'r') || says(args, "--recursive"@))
                && (clustered(args, 'f') || says(args, "--force"@)) {
                Some("Deletes a directory tree"@)
            } else {
                None
            })
        }),
{
    lemma_programs();
    lemma_program_words();
    lemma_judged(program, args);
    lemma_args(args);
}

/// `rmdir` is flagged when it takes the whole tree and does not ask.
pub proof fn rmdir_is_flagged_when_it_goes_deep_and_quiet(program: Seq<char>, args: Seq<Seq<char>>)
    requires
        program == "rmdir"@,
        plain_words(args),
        line_of(seq![program] + args).len() <= 4096,
    ensures
        ({
            let line = line_of(seq![program] + args);
            risk::reason_of(line) == (if says(args, "/s"@) && says(args, "/q"@) {
                Some("Deletes a directory tree"@)
            } else {
                None
            })
        }),
{
    lemma_programs();
    lemma_program_words();
    lemma_judged(program, args);
    lemma_args(args);
}

/// `rd` is flagged when it takes the whole tree.
pub proof fn rd_is_flagged_when_it_goes_deep(program: Seq<char>, args: Seq<Seq<char>>)
    requires
        program == "rd"@,
        plain_words(args),
        line_of(seq![program] + args).len() <= 4096,
    ensures
        ({
            let line = line_of(seq![program] + args);
            risk::reason_of(line) == (if says(args, "/s"@) {
                Some("Deletes a directory tree"@)
            } else {
                None
            })
        }),
{
    lemma_programs();
    lemma_program_words();
    lemma_judged(program, args);
    lemma_args(args);
}

/// `del` is flagged when it goes into folders or does not ask.
pub proof fn del_is_flagged_when_it_goes_deep_or_quiet(program: Seq<char>, args: Seq<Seq<char>>)
    requires
        program == "del"@,
        plain_words(args),
        line_of(seq![program] + args).len() <= 4096,
    ensures
        ({
            let line = line_of(seq![program] + args);
            risk::reason_of(line) == (if says(args, "/s"@) || says(args, "/q"@) {
                Some("Deletes files without confirming"@)
            } else {
                None
            })
        }),
{
    lemma_programs();
    lemma_program_words();
    lemma_judged(program, args);
    lemma_args(args);
}

/// `Remove-Item` is flagged when both are asked of it.
pub proof fn remove_item_is_flagged_when_recursive_and_forced(program: Seq<char>, args: Seq<Seq<char>>)
    requires
        program == "remove-item"@,
        plain_words(args),
        line_of(seq![program] + args).len() <= 4096,
    ensures
        ({
            let line = line_of(seq![program] + args);
            risk::reason_of(line) == (if says_like(args, "-recurse"@)
                && says_like(args, "-force"@) {
                Some("Deletes a directory tree"@)
            } else {
                None
            })
        }),
{
    lemma_programs();
    lemma_program_words();
    lemma_judged(program, args);
    lemma_args(args);
}

/// Publishing is flagged, and nothing else these programs do.
pub proof fn publishing_is_flagged(program: Seq<char>, args: Seq<Seq<char>>)
    requires
        program == "npm"@ || program == "pnpm"@ || program == "yarn"@ || program == "bun"@
            || program == "cargo"@,
        plain_words(args),
        line_of(seq![program] + args).len() <= 4096,
    ensures
        ({
            let line = line_of(seq![program] + args);
            risk::reason_of(line) == (if first_is(args, "publish"@) {
                Some("Publishes a package"@)
            } else {
                None
            })
        }),
{
    lemma_programs();
    lemma_program_words();
    lemma_judged(program, args);
    lemma_args(args);
}

/// So is uploading.
pub proof fn uploading_is_flagged(program: Seq<char>, args: Seq<Seq<char>>)
    requires
        program == "twine"@,
        plain_words(args),
        line_of(seq![program] + args).len() <= 4096,
    ensures
        ({
            let line = line_of(seq![program] + args);
            risk::reason_of(line) == (if first_is(args, "upload"@) {
                Some("Publishes a package"@)
            } else {
                None
            })
        }),
{
    lemma_programs();
    lemma_program_words();
    lemma_judged(program, args);
    lemma_args(args);
}

/// Deleting a repository is flagged.
pub proof fn deleting_a_repository_is_flagged(program: Seq<char>, args: Seq<Seq<char>>)
    requires
        program == "gh"@,
        plain_words(args),
        line_of(seq![program] + args).len() <= 4096,
    ensures
        ({
            let line = line_of(seq![program] + args);
            risk::reason_of(line) == (if first_is(args, "repo"@) && second_is(args, "delete"@) {
                Some("Deletes a repository"@)
            } else {
                None
            })
        }),
{
    lemma_programs();
    lemma_program_words();
    lemma_judged(program, args);
    lemma_args(args);
}

/// Tearing down is flagged.
pub proof fn destroying_infrastructure_is_flagged(program: Seq<char>, args: Seq<Seq<char>>)
    requires
        program == "terraform"@ || program == "tofu"@,
        plain_words(args),
        line_of(seq![program] + args).len() <= 4096,
    ensures
        ({
            let line = line_of(seq![program] + args);
            risk::reason_of(line) == (if first_is(args, "destroy"@) {
                Some("Tears down infrastructure"@)
            } else {
                None
            })
        }),
{
    lemma_programs();
    lemma_program_words();
    lemma_judged(program, args);
    lemma_args(args);
}

/// Deleting from a cluster is flagged.
pub proof fn deleting_from_a_cluster_is_flagged(program: Seq<char>, args: Seq<Seq<char>>)
    requires
        program == "kubectl"@,
        plain_words(args),
        line_of(seq![program] + args).len() <= 4096,
    ensures
        ({
            let line = line_of(seq![program] + args);
            risk::reason_of(line) == (if first_is(args, "delete"@) {
                Some("Deletes cluster resources"@)
            } else {
                None
            })
        }),
{
    lemma_programs();
    lemma_program_words();
    lemma_judged(program, args);
    lemma_args(args);
}

/// Removing a release is flagged, under either name.
pub proof fn removing_a_release_is_flagged(program: Seq<char>, args: Seq<Seq<char>>)
    requires
        program == "helm"@,
        plain_words(args),
        line_of(seq![program] + args).len() <= 4096,
    ensures
        ({
            let line = line_of(seq![program] + args);
            risk::reason_of(line) == (if first_is(args, "uninstall"@) || first_is(args, "delete"@) {
                Some("Removes a release"@)
            } else {
                None
            })
        }),
{
    lemma_programs();
    lemma_program_words();
    lemma_judged(program, args);
    lemma_args(args);
}

/// Pruning all of it is flagged.
pub proof fn pruning_is_flagged(program: Seq<char>, args: Seq<Seq<char>>)
    requires
        program == "docker"@,
        plain_words(args),
        line_of(seq![program] + args).len() <= 4096,
    ensures
        ({
            let line = line_of(seq![program] + args);
            risk::reason_of(line) == (if first_is(args, "system"@) && second_is(args, "prune"@) {
                Some("Prunes Docker state"@)
            } else {
                None
            })
        }),
{
    lemma_programs();
    lemma_program_words();
    lemma_judged(program, args);
    lemma_args(args);
}

/// Writing to a device is flagged, whatever is written.
pub proof fn writing_raw_blocks_is_flagged(program: Seq<char>, args: Seq<Seq<char>>)
    requires
        program == "dd"@,
        plain_words(args),
        line_of(seq![program] + args).len() <= 4096,
    ensures
        ({
            let line = line_of(seq![program] + args);
            risk::reason_of(line) == (if true {
                Some("Writes raw blocks to a device"@)
            } else {
                None
            })
        }),
{
    lemma_programs();
    lemma_program_words();
    lemma_judged(program, args);
    lemma_args(args);
}

/// Formatting is flagged.
pub proof fn formatting_is_flagged(program: Seq<char>, args: Seq<Seq<char>>)
    requires
        program == "mkfs"@,
        plain_words(args),
        line_of(seq![program] + args).len() <= 4096,
    ensures
        ({
            let line = line_of(seq![program] + args);
            risk::reason_of(line) == (if true {
                Some("Formats a filesystem"@)
            } else {
                None
            })
        }),
{
    lemma_programs();
    lemma_program_words();
    lemma_judged(program, args);
    lemma_args(args);
}

/// So is formatting a volume.
pub proof fn formatting_a_volume_is_flagged(program: Seq<char>, args: Seq<Seq<char>>)
    requires
        program == "format-volume"@,
        plain_words(args),
        line_of(seq![program] + args).len() <= 4096,
    ensures
        ({
            let line = line_of(seq![program] + args);
            risk::reason_of(line) == (if true {
                Some("Formats a volume"@)
            } else {
                None
            })
        }),
{
    lemma_programs();
    lemma_program_words();
    lemma_judged(program, args);
    lemma_args(args);
}

/// Restarting is flagged.
pub proof fn restarting_is_flagged(program: Seq<char>, args: Seq<Seq<char>>)
    requires
        program == "shutdown"@ || program == "reboot"@,
        plain_words(args),
        line_of(seq![program] + args).len() <= 4096,
    ensures
        ({
            let line = line_of(seq![program] + args);
            risk::reason_of(line) == (if true {
                Some("Restarts the machine"@)
            } else {
                None
            })
        }),
{
    lemma_programs();
    lemma_program_words();
    lemma_judged(program, args);
    lemma_args(args);
}

/// A database client is flagged when what it is told drops or truncates.
pub proof fn destroying_a_database_is_flagged(program: Seq<char>, args: Seq<Seq<char>>)
    requires
        program == "psql"@ || program == "mysql"@ || program == "sqlite3"@ || program == "mongosh"@
            || program == "mongo"@,
        plain_words(args),
        line_of(seq![program] + args).len() <= 4096,
    ensures
        ({
            let line = line_of(seq![program] + args);
            risk::reason_of(line) == (if strings::has(strings::lowered(line), "drop table"@)
                || strings::has(strings::lowered(line), "drop database"@)
                || strings::has(strings::lowered(line), "drop schema"@)
                || strings::has(strings::lowered(line), "truncate "@) {
                Some("Destroys database contents"@)
            } else {
                None
            })
        }),
{
    lemma_programs();
    lemma_program_words();
    lemma_judged(program, args);
    lemma_args(args);
}

/// `git` is flagged for what loses work: pushing over history or deleting what
/// is remote, resetting hard, cleaning by force, deleting a branch unmerged, and
/// rewriting history. The flags of `git` have a case; its commands do not.
pub proof fn git_is_flagged_when_it_loses_work(sub: Seq<char>, args: Seq<Seq<char>>)
    requires
        plain_word(sub),
        plain_words(args),
        line_of(seq!["git"@] + (seq![sub] + args)).len() <= 4096,
    ensures
        ({
            let reason = risk::reason_of(line_of(seq!["git"@] + (seq![sub] + args)));
            let command = strings::lowered(sub);
            let forced = args.contains("--force"@) || exists|i: int|
                0 <= i < args.len() && cluster(#[trigger] args[i], 'f');
            let gone = args.contains("--delete"@) || args.contains("-d"@) || exists|i: int|
                0 <= i < args.len() && (#[trigger] args[i]).len() > 0 && args[i][0] == ':';
            &&& command == "push"@ ==> reason == (if forced {
                Some("Force-pushes over remote history"@)
            } else if gone {
                Some("Deletes a remote branch"@)
            } else {
                None
            })
            &&& command == "reset"@ ==> reason == (if args.contains("--hard"@) {
                Some("Discards uncommitted work"@)
            } else {
                None
            })
            &&& command == "clean"@ ==> reason == (if args.contains("-f"@) || args.contains("-fd"@)
                || args.contains("-fdx"@) || args.contains("--force"@) {
                Some("Deletes untracked files"@)
            } else {
                None
            })
            &&& command == "branch"@ ==> reason == (if args.contains("-D"@) {
                Some("Force-deletes a branch"@)
            } else {
                None
            })
            &&& command == "filter-branch"@ || command == "filter-repo"@ ==> reason == Some(
                "Rewrites history"@,
            )
            &&& command != "push"@ && command != "reset"@ && command != "clean"@ && command
                != "branch"@ && command != "filter-branch"@ && command != "filter-repo"@ ==> reason
                is None
        }),
{
    lemma_programs();
    lemma_program_words();
    lemma_commands();
    let all = seq![sub] + args;
    assert forall|i: int| 0 <= i < all.len() implies plain_word(#[trigger] all[i]) by {
        if i > 0 {
            assert(all[i] == args[i - 1]);
        }
    }
    lemma_judged("git"@, all);
    assert(all.skip(1) =~= args);
    if exists|i: int| 0 <= i < args.len() && cluster(#[trigger] args[i], 'f') {
        let i = choose|i: int| 0 <= i < args.len() && cluster(#[trigger] args[i], 'f');
        lemma_cluster(args[i], 'f');
        assert(risk::short_flag(args[i], 'f'));
    }
    if risk::any_short_flag(args, 'f') {
        let i = choose|i: int| 0 <= i < args.len() && risk::short_flag(#[trigger] args[i], 'f');
        lemma_cluster(args[i], 'f');
        assert(cluster(args[i], 'f'));
    }
    reveal_strlit(":");
    assert forall|i: int| 0 <= i < args.len() implies (strings::begins(#[trigger] args[i], ":"@)
        <==> args[i].len() > 0 && args[i][0] == ':') by {
        if args[i].len() > 0 {
            assert(args[i].take(1)[0] == args[i][0]);
            if args[i][0] == ':' {
                assert(args[i].take(1) =~= ":"@);
            }
        }
    }
}

/// Nothing is flagged that is none of these.
pub proof fn other_programs_are_not_flagged(program: Seq<char>, args: Seq<Seq<char>>)
    requires
        program_word(program),
        plain_words(args),
        line_of(seq![program] + args).len() <= 4096,
        program != "rm"@,
        program != "rmdir"@,
        program != "rd"@,
        program != "del"@,
        program != "remove-item"@,
        program != "git"@,
        program != "npm"@,
        program != "pnpm"@,
        program != "yarn"@,
        program != "bun"@,
        program != "cargo"@,
        program != "twine"@,
        program != "gh"@,
        program != "terraform"@,
        program != "tofu"@,
        program != "kubectl"@,
        program != "helm"@,
        program != "docker"@,
        program != "dd"@,
        program != "mkfs"@,
        program != "format-volume"@,
        program != "shutdown"@,
        program != "reboot"@,
        program != "psql"@,
        program != "mysql"@,
        program != "sqlite3"@,
        program != "mongosh"@,
        program != "mongo"@,
        program != "sudo"@,
        program != "doas"@,
        program != "env"@,
        program != "nohup"@,
        program != "time"@,
        program != "command"@,
        program != "exec"@,
        program != "then"@,
        program != "do"@,
        program != "bash"@,
        program != "powershell"@,
        program != "cmd"@,
    ensures
        risk::reason_of(line_of(seq![program] + args)) is None,
{
    lemma_judged(program, args);
}

// --- what stands in front -----------------------------------------------------------
/// A word that only passes a command on is not the command, and neither is a
/// setting in front of it.
pub proof fn what_passes_a_command_on_is_passed_over(first: Seq<char>, rest: Seq<Seq<char>>)
    requires
        ({
            let word = strings::lowered(first);
            word == "sudo"@ || word == "doas"@ || word == "env"@ || word == "nohup"@
                || word == "time"@ || word == "command"@ || word == "exec"@ || word == "then"@
                || word == "do"@
        }) || (exists|k: int| 0 < k < first.len() && first[k] == '=' && (forall|j: int|
            0 <= j < k ==> first[j] != '=' && first[j] != '/')),
    ensures
        risk::past_wrappers(seq![first] + rest) == risk::past_wrappers(rest),
{
    let words = seq![first] + rest;
    assert(words.skip(1) =~= rest);
    if exists|k: int|
        0 < k < first.len() && first[k] == '=' && (forall|j: int|
            0 <= j < k ==> first[j] != '=' && first[j] != '/') {
        let k = choose|k: int|
            0 < k < first.len() && first[k] == '=' && (forall|j: int|
                0 <= j < k ==> first[j] != '=' && first[j] != '/');
        strings::lemma_position(first, '=');
        let n = strings::position(first, '=');
        assert(n == k);
        let name = first.take(n);
        if name.contains('/') {
            let j = choose|j: int| 0 <= j < name.len() && name[j] == '/';
            assert(first[j] == '/');
        }
    }
}

/// Any other word is the command.
pub proof fn any_other_word_is_the_command(words: Seq<Seq<char>>)
    requires
        words.len() > 0,
        !words[0].contains('='),
        ({
            let word = strings::lowered(words[0]);
            word != "sudo"@ && word != "doas"@ && word != "env"@ && word != "nohup"@
                && word != "time"@ && word != "command"@ && word != "exec"@ && word != "then"@
                && word != "do"@
        }),
    ensures
        risk::past_wrappers(words) == words,
{
    strings::lemma_position(words[0], '=');
    let n = strings::position(words[0], '=');
    if n < words[0].len() {
        assert(words[0].contains(words[0][n]));
    }
}

/// A program is known by its name, whatever folder it is in and whether or not
/// its ending is written.
pub proof fn a_program_is_known_by_its_name(folder: Seq<char>, name: Seq<char>)
    requires
        program_word(name),
        strings::is_ascii_text(folder),
        folder.len() > 0 ==> folder.last() == '/' || folder.last() == '\\',
    ensures
        risk::program_spec(folder + name) == name,
        risk::program_spec(folder + name + ".exe"@) == name,
{
    reveal_strlit(".exe");
    lemma_named(name);
    let long = name + ".exe"@;
    assert(folder + name + ".exe"@ =~= folder + long);
    assert forall|i: int| 0 <= i < long.len() implies !text::separators().contains(#[trigger] long[i])
        && long[i] as u32 <= 0x7f && strings::ascii_lower(long[i]) == long[i] by {
        if i < name.len() {
            assert(program_char(name[i]));
        }
    }
    lemma_tail_kept(folder, long);
    assert forall|i: int| 0 <= i < name.len() implies !text::separators().contains(#[trigger] name[i])
        && name[i] as u32 <= 0x7f && strings::ascii_lower(name[i]) == name[i] by {
        assert(program_char(name[i]));
    }
    lemma_tail_kept(folder, name);
    assert(long.skip(long.len() - 4) =~= ".exe"@);
    assert(long.take(long.len() - 4) =~= name);
    assert(strings::finishes(long, ".exe"@));
    if name.len() >= 4 && strings::finishes(name, ".exe"@) {
        assert(name.skip(name.len() - 4)[0] == ".exe"@[0]);
        assert(program_char(name[name.len() - 4]));
    }
    reveal_with_fuel(risk::without_exe, 2);
}

/// What follows a folder is kept, in lower case, and the folder goes.
proof fn lemma_tail_kept(folder: Seq<char>, tail: Seq<char>)
    requires
        strings::is_ascii_text(folder),
        folder.len() > 0 ==> folder.last() == '/' || folder.last() == '\\',
        forall|i: int|
            0 <= i < tail.len() ==> !text::separators().contains(#[trigger] tail[i])
                && tail[i] as u32 <= 0x7f && strings::ascii_lower(tail[i]) == tail[i],
    ensures
        ({
            let head = strings::lowered(folder + tail);
            head.skip(strings::behind_last(head, text::separators())) == tail
        }),
{
    let all = folder + tail;
    assert forall|i: int| 0 <= i < all.len() implies (#[trigger] all[i]) as u32 <= 0x7f by {
        if i < folder.len() {
            assert(all[i] == folder[i]);
        } else {
            assert(all[i] == tail[i - folder.len()]);
        }
    }
    let head = strings::lowered(all);
    let n = folder.len() as int;
    assert forall|i: int| 0 <= i < tail.len() implies #[trigger] head[n + i] == tail[i] by {
        assert(all[n + i] == tail[i]);
    }
    strings::lemma_behind_last(head, text::separators());
    let k = strings::behind_last(head, text::separators());
    if n > 0 {
        assert(head[n - 1] == folder.last());
        assert(text::separators()[0] == '/' && text::separators()[1] == '\\');
        assert(text::separators().contains(head[n - 1]));
    }
    if k > n {
        assert(head[n + (k - 1 - n)] == tail[k - 1 - n]);
    }
    assert(k == n);
    assert(head.skip(n) =~= tail);
}

// --- more than one command -------------------------------------------------------------
/// What a shell ends a command with.
pub open spec fn is_break(s: Seq<char>) -> bool {
    s == ";"@ || s == "\n"@ || s == "&&"@ || s == "||"@ || s == "|"@ || s == "&"@
}

/// Every command of a line is looked at, in order, whatever ends the one before
/// it: a line is flagged for its first command that is.
pub proof fn every_command_of_a_line_is_looked_at(
    first: Seq<char>,
    end: Seq<char>,
    rest: Seq<char>,
)
    requires
        forall|i: int| 0 <= i < first.len() ==> plain_char(#[trigger] first[i]) || first[i] == ' ',
        is_break(end),
        rest.len() > 0 ==> rest[0] != '&' && rest[0] != '|',
        first.len() + end.len() + rest.len() <= 4096,
        risk::segments_spec(rest).len() < 50,
    ensures
        risk::reason_of(first + end + rest) == (match risk::segment_reason(first) {
            Some(reason) => Some(reason),
            None => risk::reason_of(rest),
        }),
{
    reveal_strlit(";");
    reveal_strlit("\n");
    reveal_strlit("&&");
    reveal_strlit("||");
    reveal_strlit("|");
    reveal_strlit("&");
    lemma_break(first, end + rest, seq![]);
    let line = first + end + rest;
    assert(line =~= first + (end + rest));
    assert(seq![] + first =~= first);
    let tail = end + rest;
    assert(tail[0] == end[0]);
    if end.len() == 2 {
        assert(tail[1] == end[1]);
        assert(tail.skip(2) =~= rest);
    } else {
        assert(tail.skip(1) =~= rest);
        if rest.len() > 0 {
            assert(tail[1] == rest[0]);
        }
    }
    let later = risk::segments_spec(rest);
    assert(risk::segments_from(tail, first, false, false) == seq![first] + later);
    let all = seq![first] + later;
    assert(risk::segments_spec(line) == all);
    assert(all.skip(1) =~= later);
    let reason = |s: Seq<char>| risk::segment_reason(s);
    assert(risk::first_reason(all, reason) == (match reason(all[0]) {
        Some(r) => Some(r),
        None => risk::first_reason(later, reason),
    }));
}

proof fn lemma_break(first: Seq<char>, tail: Seq<char>, current: Seq<char>)
    requires
        forall|i: int| 0 <= i < first.len() ==> plain_char(#[trigger] first[i]) || first[i] == ' ',
    ensures
        risk::segments_from(first + tail, current, false, false) == risk::segments_from(
            tail,
            current + first,
            false,
            false,
        ),
    decreases first.len(),
{
    if first.len() == 0 {
        assert(first + tail =~= tail);
        assert(current + first =~= current);
    } else {
        let rest = first.skip(1);
        let all = first + tail;
        assert(plain_char(first[0]) || first[0] == ' ');
        assert(all[0] == first[0]);
        assert forall|i: int| 0 <= i < rest.len() implies plain_char(#[trigger] rest[i]) || rest[i]
            == ' ' by {
            assert(rest[i] == first[i + 1]);
        }
        lemma_break(rest, tail, current.push(first[0]));
        assert(all.skip(1) =~= rest + tail);
        assert(current.push(first[0]) + rest =~= current + first);
    }
}

// --- a command inside a command ------------------------------------------------------------
/// A command that is handed to another shell is judged as that shell would run
/// it: `bash` runs the one word behind `-c`, whatever follows that.
pub proof fn a_script_is_judged(script: Seq<char>, rest: Seq<char>)
    requires
        rest.len() == 0 || rest[0] == ' ',
    ensures
        risk::segment_reason("bash -c "@ + seq!['"'] + risk::guarded(script) + seq!['"'] + rest)
            == risk::line_face_reason(script),
{
    reveal_strlit("bash -c ");
    reveal_strlit("bash");
    reveal_strlit("-c");
    let text = seq!['"'] + risk::guarded(script) + seq!['"'] + rest;
    let line = "bash -c "@ + text;
    assert(line =~= "bash -c "@ + seq!['"'] + risk::guarded(script) + seq!['"'] + rest);
    assert(line =~= "bash"@ + seq![' '] + "-c"@ + seq![' '] + text);
    lemma_behind_shell("bash"@, "-c"@, line, text);
    lemma_trimmed_script(script, rest);
}

/// Behind a shell and its flag stands what the shell is to run.
proof fn lemma_behind_shell(shell: Seq<char>, flag: Seq<char>, line: Seq<char>, text: Seq<char>)
    requires
        shell == "bash"@,
        flag == "-c"@,
        line == shell + seq![' '] + flag + seq![' '] + text,
    ensures
        risk::inner_command(line) == Some(risk::unwrapped(shell, seq![' '] + text)),
{
    lemma_programs();
    lemma_program_words();
    reveal_strlit("-c");
    let after = flag + seq![' '] + text;
    assert(line =~= shell + seq![' '] + after);
    lemma_named(shell);
    lemma_first_word(shell, after);
    let words = strings::words_spec(line);
    assert(words == seq![shell] + strings::words_spec(after));
    lemma_unquoted_first(shell, strings::words_spec(after));
    let bare = risk::unquoted_all(words);
    assert(bare[0] == shell);
    assert(!risk::is_wrapper(shell));
    assert(risk::past_wrappers(bare) == bare);
    assert(risk::command_words_spec(line)[0] == shell);
    lemma_after_word(shell, shell, after);
    assert(plain_word(flag)) by {
        assert(flag[0] == '-' && flag[1] == 'c');
    }
    lemma_bare(flag);
    assert(after =~= flag + seq![' '] + text);
    lemma_word_at(flag, text);
    lemma_blank_first(shell, after);
    lemma_bare(shell);
    assert(risk::after_flag(shell, after) == Some(seq![' '] + text));
}

proof fn lemma_blank_first(program: Seq<char>, s: Seq<char>)
    ensures
        risk::after_flag(program, seq![' '] + s) == risk::after_flag(program, s),
{
    let t = seq![' '] + s;
    assert(strings::white()(t[0]));
    assert(t.skip(1) =~= s);
    assert(strings::trimmed_start(t) == strings::trimmed_start(s));
}

/// A plain word at the start of a text, with a blank behind it.
proof fn lemma_word_at(word: Seq<char>, rest: Seq<char>)
    requires
        plain_word(word),
    ensures
        ({
            let s = word + seq![' '] + rest;
            &&& strings::trimmed_start(s) == s
            &&& strings::word_len(s) == word.len()
            &&& s.take(word.len() as int) == word
            &&& s.skip(word.len() as int) == seq![' '] + rest
        }),
{
    let s = word + seq![' '] + rest;
    let n = word.len() as int;
    assert(plain_char(word[0]));
    assert(s[0] == word[0]);
    assert(!strings::white()(s[0]));
    strings::lemma_word_len(s);
    let k = strings::word_len(s);
    assert(s[n] == ' ');
    if k < n {
        assert(s[k] == word[k]);
        assert(plain_char(word[k]));
    }
    assert(s.take(n) =~= word);
    assert(s.skip(n) =~= seq![' '] + rest);
}

proof fn lemma_first_word(word: Seq<char>, rest: Seq<char>)
    requires
        plain_word(word),
    ensures
        strings::words_spec(word + seq![' '] + rest) == seq![word] + strings::words_spec(rest),
{
    lemma_word_at(word, rest);
    let t = seq![' '] + rest;
    assert(strings::white()(t[0]));
    assert(t.skip(1) =~= rest);
    assert(strings::trimmed_start(t) == strings::trimmed_start(rest));
    assert(strings::words_spec(t) == strings::words_spec(rest));
}

proof fn lemma_unquoted_first(word: Seq<char>, rest: Seq<Seq<char>>)
    requires
        plain_word(word),
    ensures
        risk::unquoted_all(seq![word] + rest).len() > 0,
        risk::unquoted_all(seq![word] + rest)[0] == word,
    decreases rest.len(),
{
    let all = seq![word] + rest;
    if rest.len() == 0 {
        lemma_bare(word);
        assert(all.drop_last() =~= seq![]);
        reveal_with_fuel(risk::unquoted_all, 2);
        assert(all.last() == word);
    } else {
        lemma_unquoted_first(word, rest.drop_last());
        assert(all.drop_last() =~= seq![word] + rest.drop_last());
    }
}

/// A shell's own name is not its flag.
proof fn lemma_after_word(program: Seq<char>, word: Seq<char>, rest: Seq<char>)
    requires
        program == "bash"@,
        plain_word(word),
        word != "-c"@,
    ensures
        risk::after_flag(program, word + seq![' '] + rest) == risk::after_flag(program, rest),
{
    lemma_word_at(word, rest);
    lemma_bare(word);
    lemma_blank_first(program, rest);
}

proof fn lemma_trimmed_script(script: Seq<char>, rest: Seq<char>)
    requires
        rest.len() == 0 || rest[0] == ' ',
    ensures
        risk::unwrapped(
            "bash"@,
            seq![' '] + (seq!['"'] + risk::guarded(script) + seq!['"'] + rest),
        ) == script,
{
    let text = seq!['"'] + risk::guarded(script) + seq!['"'] + rest;
    let s = seq![' '] + text;
    assert(strings::white()(s[0]));
    assert(s.skip(1) =~= text);
    assert(!strings::white()(text[0]));
    reveal_with_fuel(strings::drop_start, 3);
    assert(strings::trimmed_start(s) == text);
    let kept = strings::trimmed_end(rest);
    let body = seq!['"'] + risk::guarded(script) + seq!['"'];
    assert(text =~= body + rest);
    lemma_trim_behind(body, rest);
    strings::lemma_drop_end(rest, strings::white());
    let t = body + kept;
    assert(strings::trimmed(s) == t);
    assert(t =~= seq!['"'] + risk::guarded(script) + seq!['"'] + kept);
    assert(t[0] == '"');
    assert(risk::quotes()[0] == '"');
    assert(risk::quotes().contains(t[0]));
    if kept.len() > 0 {
        assert(kept[0] == rest[0]);
    }
    risk::a_script_is_taken_out_of_its_quotes(script, kept);
}

/// What ends in a character that is not white keeps it when blanks behind it go.
proof fn lemma_trim_behind(body: Seq<char>, rest: Seq<char>)
    requires
        body.len() > 0,
        !strings::is_white(body.last()),
    ensures
        strings::trimmed_end(body + rest) == body + strings::trimmed_end(rest),
    decreases rest.len(),
{
    let all = body + rest;
    if rest.len() == 0 {
        assert(all =~= body);
        assert(!strings::white()(all.last()));
        assert(body + strings::trimmed_end(rest) =~= body);
    } else {
        assert(all.last() == rest.last());
        if strings::is_white(rest.last()) {
            assert(strings::white()(rest.last()));
            assert(all.drop_last() =~= body + rest.drop_last());
            lemma_trim_behind(body, rest.drop_last());
        } else {
            assert(!strings::white()(rest.last()));
        }
    }
}

/// A word with an equals sign behind a name is an assignment; a path with one is
/// not.
pub proof fn an_assignment_has_a_name(name: Seq<char>, value: Seq<char>, word: Seq<char>)
    requires
        name.len() > 0,
        !name.contains('='),
    ensures
        risk::is_assignment(name + seq!['='] + value) <==> !name.contains('/'),
        !word.contains('=') ==> !risk::is_assignment(word),
        !risk::is_assignment(seq!['='] + value),
{
    let whole = name + seq!['='] + value;
    strings::lemma_position(whole, '=');
    let n = strings::position(whole, '=');
    assert(whole[name.len() as int] == '=');
    if n < name.len() {
        assert(name[n] == '=');
        assert(name.contains('='));
    }
    if n > name.len() {
        assert(whole[name.len() as int] != '=');
    }
    assert(whole.take(n) =~= name);
    strings::lemma_position(word, '=');
    if strings::position(word, '=') < word.len() {
        assert(word.contains(word[strings::position(word, '=')]));
    }
    assert((seq!['='] + value)[0] == '=');
}

/// A shell takes its script behind this flag, bash in this case only; no other program
/// takes one.
pub proof fn a_script_stands_behind_its_flag(program: Seq<char>, word: Seq<char>)
    ensures
        risk::is_command_flag("bash"@, word) <==> risk::unquoted(word) == "-c"@,
        risk::is_command_flag("powershell"@, word) <==> strings::lowered(risk::unquoted(word))
            == "-command"@,
        risk::is_command_flag("cmd"@, word) <==> strings::lowered(risk::unquoted(word)) == "/c"@,
        program != "bash"@ && program != "powershell"@ && program != "cmd"@
            ==> !risk::is_command_flag(program, word),
{
    reveal_strlit("bash");
    reveal_strlit("powershell");
    reveal_strlit("cmd");
    assert("bash"@.len() == 4 && "powershell"@.len() == 10 && "cmd"@.len() == 3);
}

/// Outside of quotes a quote opens one and is dropped; a blank ends the script where
/// the shell takes one word, and belongs to it where it takes the rest.
pub proof fn a_quote_opens_what_it_quotes(c: char, rest: Seq<char>, whole: bool)
    ensures
        ({
            let read = risk::dequoted(seq![c] + rest, Quoting::Plain, whole);
            &&& c == '\'' ==> read == risk::dequoted(rest, Quoting::Single, whole)
            &&& c == '"' ==> read == risk::dequoted(rest, Quoting::Double, whole)
            &&& c != '\'' && c != '"' && strings::is_white(c) && !whole ==> read == Seq::<
                char,
            >::empty()
            &&& c != '\'' && c != '"' && (whole || !strings::is_white(c)) ==> read == seq![c]
                + risk::dequoted(rest, Quoting::Plain, whole)
        }),
{
    assert((seq![c] + rest).skip(1) =~= rest);
}

/// Inside single quotes everything stands for itself.
pub proof fn single_quotes_keep_everything(c: char, rest: Seq<char>, whole: bool)
    ensures
        ({
            let read = risk::dequoted(seq![c] + rest, Quoting::Single, whole);
            &&& c == '\'' ==> read == risk::dequoted(rest, Quoting::Plain, whole)
            &&& c != '\'' ==> read == seq![c] + risk::dequoted(rest, Quoting::Single, whole)
        }),
{
    assert((seq![c] + rest).skip(1) =~= rest);
}

/// Inside double quotes a backslash guards a quote, a dollar, a backquote and itself,
/// joins two lines, and stands for itself in front of anything else.
pub proof fn a_backslash_guards_four_characters(c: char, rest: Seq<char>, whole: bool)
    ensures
        ({
            let read = risk::dequoted(seq!['\\', c] + rest, Quoting::Double, whole);
            let tail = risk::dequoted(rest, Quoting::Double, whole);
            let guards = c == '"' || c == '$' || c == '`' || c == '\\';
            &&& guards ==> read == seq![c] + tail
            &&& c == '\n' ==> read == tail
            &&& !guards && c != '\n' ==> read == seq!['\\'] + risk::dequoted(
                seq![c] + rest,
                Quoting::Double,
                whole,
            )
        }),
        c != '"' && c != '\\' ==> risk::dequoted(seq![c] + rest, Quoting::Double, whole)
            == seq![c] + risk::dequoted(rest, Quoting::Double, whole),
        risk::dequoted(seq!['"'] + rest, Quoting::Double, whole) == risk::dequoted(
            rest,
            Quoting::Plain,
            whole,
        ),
{
    assert((seq![c] + rest).skip(1) =~= rest);
    assert((seq!['"'] + rest).skip(1) =~= rest);
    let s = seq!['\\', c] + rest;
    assert(s[0] == '\\' && s[1] == c);
    assert(s.skip(2) =~= rest);
    assert(s.skip(1) =~= seq![c] + rest);
}

/// A script in quotes is taken out of them, one word of it for bash and all of it for
/// the others; one without quotes is taken as it stands.
pub proof fn a_script_without_quotes_is_taken_as_it_stands(program: Seq<char>, s: Seq<char>)
    ensures
        ({
            let t = strings::trimmed(s);
            let quoted = t.len() > 0 && (t[0] == '"' || t[0] == '\'');
            &&& !quoted ==> risk::unwrapped(program, s) == t
            &&& quoted && program == "bash"@ ==> risk::unwrapped(program, s) == risk::dequoted(
                t,
                Quoting::Plain,
                false,
            )
            &&& quoted && program != "bash"@ ==> risk::unwrapped(program, s) == risk::dequoted(
                t,
                Quoting::Plain,
                true,
            )
        }),
{
    let set = risk::quotes();
    assert(set[0] == '"' && set[1] == '\'');
    assert(set.contains('"') && set.contains('\''));
}

/// Inside double quotes a backslash takes the next character along, so that a guarded
/// quote does not end them.
pub proof fn a_guarded_quote_does_not_end_the_quoting(
    c: char,
    rest: Seq<char>,
    current: Seq<char>,
)
    ensures
        risk::segments_from(seq!['\\', c] + rest, current, false, true) == risk::segments_from(
            rest,
            current.push('\\').push(c),
            false,
            true,
        ),
        risk::segments_from(seq!['\\', c] + rest, current, false, false) == risk::segments_from(
            seq![c] + rest,
            current.push('\\'),
            false,
            false,
        ),
{
    let s = seq!['\\', c] + rest;
    assert(s[0] == '\\' && s[1] == c);
    assert(s.skip(2) =~= rest);
    assert(s.skip(1) =~= seq![c] + rest);
}

} // verus!
