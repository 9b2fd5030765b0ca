//! What the dashboard is told.

use crate::top::state::Screen;
use vstd::prelude::*;

verus! {

/// The command line.
#[derive(Debug)]
pub struct Args {
    /// Config file(s), merged left to right on top of the built-in defaults. When omitted, the
    /// first existing of `$HZTOP_CONFIG`, `~/.config/hztop/config.json`, `/etc/hztop/config.json`
    /// is used.
    pub config: Vec<String>,
    /// Screen to open: c(onsensus), a(lerts). Omitted: the screen from the previous run.
    pub screen: Option<String>,
    /// Print one JSON snapshot of everything the dashboard knows, then exit.
    pub json: bool,
    /// How long `--json` waits for the heads before printing.
    pub json_timeout_ms: u64,
}

#[derive(Clone, Debug)]
pub struct HeadTarget {
    pub name: String,
    /// Base URL of a hydrozoa head peer.
    pub url: String,
}

#[derive(Debug)]
pub struct Config {
    pub heads: Vec<HeadTarget>,
    /// When true, skip painting the app background and inherit the terminal theme.
    pub transparent_background: bool,
    pub hard_confirm_warn_secs: i64,
    pub hard_confirm_crit_secs: i64,
    pub fallback_warn_secs: i64,
    pub fallback_crit_secs: i64,
}

/// Where the built-in defaults are overlaid from: what was given, or else the first of the places
/// looked in where a file exists: the one that the environment names, the home directory's, the
/// system's.
pub open spec fn config_files(
    given: Seq<Seq<char>>,
    named: Option<Seq<char>>,
    home: Option<Seq<char>>,
    system: Option<Seq<char>>,
) -> Seq<Seq<char>> {
    if given.len() > 0 {
        given
    } else if named is Some {
        seq![named->0]
    } else if home is Some {
        seq![home->0]
    } else if system is Some {
        seq![system->0]
    } else {
        Seq::empty()
    }
}

pub open spec fn paths_view(paths: Seq<String>) -> Seq<Seq<char>> {
    Seq::new(paths.len(), |i: int| paths[i]@)
}

pub open spec fn path_view(path: Option<String>) -> Option<Seq<char>> {
    match path {
        Some(path) => Some(path@),
        None => None,
    }
}

/// Choose the files to overlay. `named`, `home` and `system` are given where a file exists there.
pub fn choose_config(
    given: Vec<String>,
    named: Option<String>,
    home: Option<String>,
    system: Option<String>,
) -> (r: Vec<String>)
    ensures
        paths_view(r@) == config_files(
            paths_view(given@),
            path_view(named),
            path_view(home),
            path_view(system),
        ),
{
    if given.len() > 0 {
        return given;
    }
    let mut paths: Vec<String> = Vec::new();
    if let Some(path) = named {
        paths.push(path);
    } else if let Some(path) = home {
        paths.push(path);
    } else if let Some(path) = system {
        paths.push(path);
    }
    assert(paths_view(paths@) =~= config_files(
        paths_view(given@),
        path_view(named),
        path_view(home),
        path_view(system),
    ));
    paths
}

/// The screen to open: the one asked for by its first letter, or else the last one viewed, or else
/// the first.
pub open spec fn opening_screen(asked: Option<Seq<char>>, saved: Option<Screen>) -> Screen {
    let wanted = match asked {
        Some(text) => if text.len() > 0 {
            Screen::lettered(text[0])
        } else {
            None
        },
        None => None,
    };
    match (wanted, saved) {
        (Some(screen), _) => screen,
        (None, Some(screen)) => screen,
        (None, None) => Screen::Consensus,
    }
}

/// The screen to open.
pub fn first_screen(asked: Option<String>, saved: Option<Screen>) -> (r: Screen)
    ensures
        r == opening_screen(path_view(asked), saved),
{
    let wanted = match asked {
        Some(text) => if text.as_str().unicode_len() > 0 {
            Screen::from_key(text.as_str().get_char(0))
        } else {
            None
        },
        None => None,
    };
    match (wanted, saved) {
        (Some(screen), _) => screen,
        (None, Some(screen)) => screen,
        (None, None) => Screen::Consensus,
    }
}

/// Whether to print one document rather than draw: when asked to, and whenever the output is no
/// terminal. A dashboard cannot draw into a pipe.
pub fn prints_json(asked: bool, stdout_is_terminal: bool) -> (r: bool)
    ensures
        r == (asked || !stdout_is_terminal),
        !r <==> !asked && stdout_is_terminal,
{
    asked || !stdout_is_terminal
}

} // verus!
