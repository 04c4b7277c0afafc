//! What the command line asks for.

use vstd::prelude::*;
use vstd::string::*;

use crate::desktop;
use crate::strings;

verus! {

/// One invocation of the program.
#[derive(Clone, Copy)]
pub enum Invocation {
    Hook,
    Control,
    Autostart,
    Sessions,
    Install,
    Uninstall,
    Version,
    Help,
    /// Anything else runs the overlay.
    Overlay,
}

pub open spec fn invocation_spec(first: Option<Seq<char>>) -> Invocation {
    match first {
        None => Invocation::Overlay,
        Some(word) => if word == "hook"@ {
            Invocation::Hook
        } else if word == "control"@ {
            Invocation::Control
        } else if word == "autostart"@ {
            Invocation::Autostart
        } else if word == "sessions"@ {
            Invocation::Sessions
        } else if word == "install"@ || word == "--install"@ {
            Invocation::Install
        } else if word == "uninstall"@ || word == "--uninstall"@ {
            Invocation::Uninstall
        } else if word == "--version"@ || word == "-v"@ {
            Invocation::Version
        } else if word == "--help"@ || word == "-h"@ {
            Invocation::Help
        } else {
            Invocation::Overlay
        },
    }
}

/// What the first word on the command line asks for.
pub fn invocation(first: Option<&str>) -> (r: Invocation)
    ensures
        r == invocation_spec(strings::opt_str(first)),
{
    match first {
        None => Invocation::Overlay,
        Some(word) => {
            if strings::same(word, "hook") {
                Invocation::Hook
            } else if strings::same(word, "control") {
                Invocation::Control
            } else if strings::same(word, "autostart") {
                Invocation::Autostart
            } else if strings::same(word, "sessions") {
                Invocation::Sessions
            } else if strings::same(word, "install") || strings::same(word, "--install") {
                Invocation::Install
            } else if strings::same(word, "uninstall") || strings::same(word, "--uninstall") {
                Invocation::Uninstall
            } else if strings::same(word, "--version") || strings::same(word, "-v") {
                Invocation::Version
            } else if strings::same(word, "--help") || strings::same(word, "-h") {
                Invocation::Help
            } else {
                Invocation::Overlay
            }
        },
    }
}

/// What `pipsqueak autostart` is to do.
pub enum AutostartOrder {
    /// Say whether it is on.
    Status,
    /// Switch it, and record the decision so that the first-run default cannot
    /// undo it.
    Switch(bool),
    Unknown(String),
}

#[verifier::ext_equal]
pub enum AutostartOrderView {
    Status,
    Switch(bool),
    Unknown(Seq<char>),
}

impl View for AutostartOrder {
    type V = AutostartOrderView;

    open spec fn view(&self) -> AutostartOrderView {
        match self {
            AutostartOrder::Status => AutostartOrderView::Status,
            AutostartOrder::Switch(on) => AutostartOrderView::Switch(*on),
            AutostartOrder::Unknown(word) => AutostartOrderView::Unknown(word@),
        }
    }
}

pub open spec fn autostart_spec(what: Option<Seq<char>>) -> AutostartOrderView {
    match what {
        None => AutostartOrderView::Status,
        Some(word) => if word == "status"@ || word == ""@ {
            AutostartOrderView::Status
        } else if word == "on"@ || word == "enable"@ || word == "yes"@ {
            AutostartOrderView::Switch(true)
        } else if word == "off"@ || word == "disable"@ || word == "no"@ {
            AutostartOrderView::Switch(false)
        } else {
            AutostartOrderView::Unknown(word)
        },
    }
}

pub fn autostart(what: Option<&str>) -> (r: AutostartOrder)
    ensures
        r@ == autostart_spec(strings::opt_str(what)),
{
    match what {
        None => AutostartOrder::Status,
        Some(word) => {
            if strings::same(word, "status") || strings::same(word, "") {
                AutostartOrder::Status
            } else if strings::same(word, "on") || strings::same(word, "enable") || strings::same(
                word,
                "yes",
            ) {
                AutostartOrder::Switch(true)
            } else if strings::same(word, "off") || strings::same(word, "disable")
                || strings::same(word, "no") {
                AutostartOrder::Switch(false)
            } else {
                AutostartOrder::Unknown(word.to_owned())
            }
        },
    }
}

/// What is said of the autostart entry.
pub fn autostart_status(registered: Option<&str>, windows: bool) -> (r: String)
    ensures
        r@ == (match registered {
            Some(exe) => "Starts "@ + desktop::at_login_spec(windows) + ", running "@ + exe@,
            None => "Does not start "@ + desktop::at_login_spec(windows) + "."@,
        }),
{
    match registered {
        Some(exe) => {
            let head = strings::concat3("Starts ", desktop::at_login(windows), ", running ");
            strings::concat2(head.as_str(), exe)
        },
        None => strings::concat3("Does not start ", desktop::at_login(windows), "."),
    }
}

/// What is said once autostart has been switched.
pub fn autostart_switched(on: bool, windows: bool) -> (r: String)
    ensures
        r@ == (if on {
            "Will start "@
        } else {
            "Will not start "@
        }) + desktop::at_login_spec(windows) + "."@,
{
    if on {
        strings::concat3("Will start ", desktop::at_login(windows), ".")
    } else {
        strings::concat3("Will not start ", desktop::at_login(windows), ".")
    }
}

/// What is said of a word that autostart does not know.
pub fn autostart_unknown(word: &str) -> (r: String)
    ensures
        r@ == "unknown autostart option: "@ + word@,
{
    strings::concat2("unknown autostart option: ", word)
}

/// What is printed for a result, and the code that the process ends with.
pub fn report(result: Result<String, String>) -> (r: (String, i32))
    ensures
        match result {
            Ok(message) => r.0@ == message@ && r.1 == 0,
            Err(message) => r.0@ == "error: "@ + message@ && r.1 == 1,
        },
{
    match result {
        Ok(message) => (message, 0),
        Err(message) => (strings::concat2("error: ", message.as_str()), 1),
    }
}

} // verus!
