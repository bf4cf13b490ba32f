//! Command-line actions: parsing the arguments, the version and help texts,
//! and the small decisions of the update and uninstall commands.

use vstd::prelude::*;
use crate::text::{
    occurs_at, ascii_lower_seq, chars_of, find_chars, first_occ, lemma_first_occ, lemma_ws_end, push_char,
    push_str_chars, skip_ws, spec_trim, str_eq, string_from_chars, to_ascii_lower, trim_bounds,
    ws_end,
};

verus! {

/// The package version.
pub const PKG_VERSION: &'static str = "0.1.0";

/// The project's repository on GitHub.
pub const REPO: &'static str = "jyy2luck/ohmylogcat";

/// The help text between the version and the repository name.
pub const HELP_BODY: &'static str = " — lightweight Android Logcat TUI\n\nUSAGE:\n    ohmylogcat              Start the TUI\n    ohmylogcat --version    Print version (-V)\n    ohmylogcat --help       Show this help (-h)\n    ohmylogcat update       Re-run the install script (latest GitHub Release)\n    ohmylogcat uninstall    Remove a Release-script install\n\nUNINSTALL OPTIONS:\n    -y, --yes       Skip confirmation\n    --keep-data     Keep settings.json (no prompt)\n    --purge         Delete settings.json (no keep prompt)\n\nCOMMON SHORTCUTS (in TUI):\n    q         Quit (top layer)\n    d         Device list\n    Space     Pause / Resume\n    c         Clear buffer\n    f         Toggle Follow (tail)\n    t / m     Tag / Message filter\n    /         Find\n    s         Settings\n    e         Export\n\nSee README for the full shortcut table:\n  https://github.com/";

/// The help text after the repository name.
pub const HELP_TAIL: &'static str = "#keyboard-shortcuts\n";

#[derive(Debug, Clone, PartialEq, Eq, Structural)]
pub enum CliAction {
    RunTui,
    Version,
    Help,
    Update,
    Uninstall { yes: bool, keep_data: bool, purge: bool },
}

#[derive(Debug, Clone, PartialEq, Eq)]
pub struct ParseError {
    pub message: String,
}

impl ParseError {
    fn new(message: String) -> (r: ParseError)
        ensures
            r.message == message,
    {
        ParseError { message }
    }
}

/// The hint that ends every parse error.
pub open spec fn usage_hint() -> Seq<char> {
    "\nTry `ohmylogcat --help` for usage."@
}

pub open spec fn is_version_flag(a: Seq<char>) -> bool {
    a == "--version"@ || a == "-V"@
}

pub open spec fn is_help_flag(a: Seq<char>) -> bool {
    a == "--help"@ || a == "-h"@
}

pub open spec fn is_yes_flag(a: Seq<char>) -> bool {
    a == "--yes"@ || a == "-y"@
}

pub open spec fn is_known_uninstall_flag(a: Seq<char>) -> bool {
    is_yes_flag(a) || a == "--keep-data"@ || a == "--purge"@
}

/// Index of the first argument at or after `i` that is not an uninstall flag.
pub open spec fn first_unknown_flag(args: Seq<Seq<char>>, i: int) -> Option<int>
    decreases args.len() - i,
{
    if i < 0 || i >= args.len() {
        None
    } else if !is_known_uninstall_flag(args[i]) {
        Some(i)
    } else {
        first_unknown_flag(args, i + 1)
    }
}

pub open spec fn has_flag(args: Seq<Seq<char>>, flag: Seq<char>) -> bool {
    exists|i: int| 0 <= i < args.len() && args[i] == flag
}

/// What `uninstall` followed by `args` means, or the error message.
pub open spec fn spec_parse_uninstall(args: Seq<Seq<char>>) -> Result<CliAction, Seq<char>> {
    match first_unknown_flag(args, 0) {
        Some(i) => Err("unknown uninstall flag: "@ + args[i] + usage_hint()),
        None => {
            let yes = has_flag(args, "--yes"@) || has_flag(args, "-y"@);
            let keep_data = has_flag(args, "--keep-data"@);
            let purge = has_flag(args, "--purge"@);
            if keep_data && purge {
                Err("cannot combine --keep-data and --purge"@ + usage_hint())
            } else {
                Ok(CliAction::Uninstall { yes, keep_data, purge })
            }
        },
    }
}

/// What the arguments (without program name) mean, or the error message.
pub open spec fn spec_parse(args: Seq<Seq<char>>) -> Result<CliAction, Seq<char>> {
    if args.len() == 0 {
        Ok(CliAction::RunTui)
    } else {
        let first = args[0];
        if is_version_flag(first) {
            if args.len() > 1 {
                Err("unexpected arguments after --version"@ + usage_hint())
            } else {
                Ok(CliAction::Version)
            }
        } else if is_help_flag(first) {
            if args.len() > 1 {
                Err("unexpected arguments after --help"@ + usage_hint())
            } else {
                Ok(CliAction::Help)
            }
        } else if first == "update"@ {
            if args.len() > 1 {
                Err("unexpected arguments after `update`"@ + usage_hint())
            } else {
                Ok(CliAction::Update)
            }
        } else if first == "uninstall"@ {
            spec_parse_uninstall(args.drop_first())
        } else {
            Err("unknown argument: "@ + first + usage_hint())
        }
    }
}

/// The arguments as character sequences.
pub open spec fn arg_views(args: Seq<&str>) -> Seq<Seq<char>> {
    args.map_values(|a: &str| a@)
}

/// A parse result with its error taken as the message text.
pub open spec fn result_view(r: Result<CliAction, ParseError>) -> Result<CliAction, Seq<char>> {
    match r {
        Ok(a) => Ok(a),
        Err(e) => Err(e.message@),
    }
}

fn error_with_hint(prefix: &str, arg: Option<&str>) -> (r: ParseError)
    ensures
        r.message@ == prefix@ + (match arg {
            Some(a) => a@,
            None => Seq::empty(),
        }) + usage_hint(),
{
    let mut m = String::new();
    push_str_chars(&mut m, prefix);
    match arg {
        Some(a) => push_str_chars(&mut m, a),
        None => {},
    }
    push_str_chars(&mut m, "\nTry `ohmylogcat --help` for usage.");
    ParseError::new(m)
}

/// Parse CLI args (without program name).
pub fn parse(args: &[&str]) -> (r: Result<CliAction, ParseError>)
    ensures
        result_view(r) == spec_parse(arg_views(args@)),
{
    let ghost av = arg_views(args@);
    if args.len() == 0 {
        return Ok(CliAction::RunTui);
    }
    let first = args[0];
    assert(av[0] == first@);
    if str_eq(first, "--version") || str_eq(first, "-V") {
        if args.len() > 1 {
            return Err(error_with_hint("unexpected arguments after --version", None));
        }
        Ok(CliAction::Version)
    } else if str_eq(first, "--help") || str_eq(first, "-h") {
        if args.len() > 1 {
            return Err(error_with_hint("unexpected arguments after --help", None));
        }
        Ok(CliAction::Help)
    } else if str_eq(first, "update") {
        if args.len() > 1 {
            return Err(error_with_hint("unexpected arguments after `update`", None));
        }
        Ok(CliAction::Update)
    } else if str_eq(first, "uninstall") {
        assert(arg_views(args@.skip(1)) =~= av.drop_first());
        parse_uninstall(args, 1)
    } else {
        Err(error_with_hint("unknown argument: ", Some(first)))
    }
}

fn parse_uninstall(args: &[&str], from: usize) -> (r: Result<CliAction, ParseError>)
    requires
        from <= args@.len(),
    ensures
        result_view(r) == spec_parse_uninstall(arg_views(args@.skip(from as int))),
{
    let ghost av = arg_views(args@.skip(from as int));
    let mut yes = false;
    let mut keep_data = false;
    let mut purge = false;
    let mut i = from;
    while i < args.len()
        invariant
            from <= i <= args@.len(),
            av == arg_views(args@.skip(from as int)),
            av.len() == args@.len() - from,
            first_unknown_flag(av, (i - from) as int) == first_unknown_flag(av, 0),
            yes == (has_flag(av.take((i - from) as int), "--yes"@) || has_flag(av.take((i - from) as int), "-y"@)),
            keep_data == has_flag(av.take((i - from) as int), "--keep-data"@),
            purge == has_flag(av.take((i - from) as int), "--purge"@),
        decreases args@.len() - i,
    {
        let arg = args[i];
        let ghost k = (i - from) as int;
        assert(av[k] == arg@);
        let ghost before = av.take(k);
        let ghost after = av.take(k + 1);
        assert(after =~= before.push(arg@));
        if str_eq(arg, "--yes") || str_eq(arg, "-y") {
            yes = true;
        } else if str_eq(arg, "--keep-data") {
            keep_data = true;
        } else if str_eq(arg, "--purge") {
            purge = true;
        } else {
            assert(first_unknown_flag(av, k) == Some(k));
            return Err(error_with_hint("unknown uninstall flag: ", Some(arg)));
        }
        proof {
            reveal_strlit("--yes");
            reveal_strlit("-y");
            reveal_strlit("--keep-data");
            reveal_strlit("--purge");
            assert forall|flag: Seq<char>| has_flag(after, flag) == (has_flag(before, flag) || arg@ == flag) by {
                if has_flag(after, flag) {
                    let j = choose|j: int| 0 <= j < after.len() && after[j] == flag;
                    if j < before.len() {
                        assert(before[j] == flag);
                    }
                }
                if has_flag(before, flag) {
                    let j = choose|j: int| 0 <= j < before.len() && before[j] == flag;
                    assert(after[j] == flag);
                }
                if arg@ == flag {
                    assert(after[k] == flag);
                }
            }
        }
        i = i + 1;
    }
    assert(av.take(av.len() as int) =~= av);
    assert(first_unknown_flag(av, av.len() as int) is None);
    if keep_data && purge {
        return Err(error_with_hint("cannot combine --keep-data and --purge", None));
    }
    Ok(CliAction::Uninstall { yes, keep_data, purge })
}

pub fn version_text() -> (r: String)
    ensures
        r@ == "ohmylogcat "@ + PKG_VERSION@,
{
    let mut s = String::new();
    push_str_chars(&mut s, "ohmylogcat ");
    push_str_chars(&mut s, PKG_VERSION);
    s
}

pub fn help_text() -> (r: String)
    ensures
        r@ == "ohmylogcat "@ + PKG_VERSION@ + HELP_BODY@ + REPO@ + HELP_TAIL@,
{
    let mut s = String::new();
    push_str_chars(&mut s, "ohmylogcat ");
    push_str_chars(&mut s, PKG_VERSION);
    push_str_chars(&mut s, HELP_BODY);
    push_str_chars(&mut s, REPO);
    push_str_chars(&mut s, HELP_TAIL);
    s
}


/// The string value of `"field": "..."` in a JSON text, read the simple way:
/// the first occurrence of the quoted field name, then optional whitespace,
/// a colon, optional whitespace and a quote; the value runs to the next quote.
pub open spec fn spec_json_string_field(json: Seq<char>, field: Seq<char>) -> Option<Seq<char>> {
    let key = seq!['"'] + field + seq!['"'];
    match first_occ(json, key, 0) {
        None => None,
        Some(idx) => {
            let p1 = ws_end(json, idx + key.len());
            if p1 < json.len() && json[p1] == ':' {
                let p2 = ws_end(json, p1 + 1);
                if p2 < json.len() && json[p2] == '"' {
                    match first_occ(json, seq!['"'], p2 + 1) {
                        Some(e) => Some(json.subrange(p2 + 1, e)),
                        None => None,
                    }
                } else {
                    None
                }
            } else {
                None
            }
        },
    }
}

pub fn extract_json_string_field(json: &str, field: &str) -> (r: Option<String>)
    ensures
        opt_string_view(r) == spec_json_string_field(json@, field@),
{
    let v = chars_of(json);
    let mut key: Vec<char> = Vec::new();
    key.push('"');
    let f = chars_of(field);
    let mut k: usize = 0;
    while k < f.len()
        invariant
            k <= f@.len(),
            key@ == seq!['"'] + f@.take(k as int),
        decreases f@.len() - k,
    {
        key.push(f[k]);
        assert(f@.take(k + 1) =~= f@.take(k as int).push(f@[k as int]));
        k = k + 1;
    }
    key.push('"');
    assert(f@.take(f@.len() as int) =~= f@);
    assert(key@ =~= seq!['"'] + field@ + seq!['"']);
    let idx = match find_chars(&v, &key, 0) {
        Some(i) => i,
        None => {
            return None;
        },
    };
    proof {
        lemma_first_occ(v@, key@, 0);
        assert(occurs_at(v@, key@, idx as int));
    }
    let p1 = skip_ws(&v, idx + key.len());
    if !(p1 < v.len() && v[p1] == ':') {
        return None;
    }
    let p2 = skip_ws(&v, p1 + 1);
    if !(p2 < v.len() && v[p2] == '"') {
        return None;
    }
    let mut quote: Vec<char> = Vec::new();
    quote.push('"');
    assert(quote@ =~= seq!['"']);
    match find_chars(&v, &quote, p2 + 1) {
        Some(e) => {
            proof {
                lemma_first_occ(v@, quote@, p2 + 1);
            }
            Some(string_from_chars(&v, p2 + 1, e))
        },
        None => None,
    }
}

pub open spec fn opt_string_view(o: Option<String>) -> Option<Seq<char>> {
    match o {
        Some(s) => Some(s@),
        None => None,
    }
}

/// Index of the first character at or after `i` that is not `'v'`.
pub open spec fn leading_v_end(s: Seq<char>, i: int) -> int
    decreases s.len() - i,
{
    if 0 <= i < s.len() && s[i] == 'v' {
        leading_v_end(s, i + 1)
    } else {
        i
    }
}

/// The release version named by a release's JSON metadata: its `tag_name`
/// without leading `v`s.
pub open spec fn spec_release_version(body: Seq<char>) -> Result<Seq<char>, Seq<char>> {
    match spec_json_string_field(body, "tag_name"@) {
        None => Err("missing tag_name in release metadata"@),
        Some(tag) => Ok(tag.skip(leading_v_end(tag, 0))),
    }
}

pub fn release_version_from_json(body: &str) -> (r: Result<String, String>)
    ensures
        match r {
            Ok(v) => spec_release_version(body@) == Ok::<Seq<char>, Seq<char>>(v@),
            Err(e) => spec_release_version(body@) == Err::<Seq<char>, Seq<char>>(e@),
        },
{
    match extract_json_string_field(body, "tag_name") {
        None => {
            let mut e = String::new();
            push_str_chars(&mut e, "missing tag_name in release metadata");
            Err(e)
        },
        Some(tag) => {
            let v = chars_of(tag.as_str());
            let mut i: usize = 0;
            while i < v.len() && v[i] == 'v'
                invariant
                    i <= v@.len(),
                    leading_v_end(v@, i as int) == leading_v_end(v@, 0),
                decreases v@.len() - i,
            {
                i = i + 1;
            }
            Ok(string_from_chars(&v, i, v.len()))
        },
    }
}

/// The answer to a yes/no prompt: an empty answer takes the default, which
/// is yes when the prompt shows `[Y/n]`; otherwise `y` or `yes` in any case.
pub open spec fn spec_confirm_answer(prompt: Seq<char>, line: Seq<char>) -> bool {
    let t = spec_trim(line);
    if t.len() == 0 {
        crate::text::seq_contains(prompt, "[Y/n]"@)
    } else {
        ascii_lower_seq(t) == "y"@ || ascii_lower_seq(t) == "yes"@
    }
}

pub fn confirm_answer(prompt: &str, line: &str) -> (r: bool)
    ensures
        r == spec_confirm_answer(prompt@, line@),
{
    let v = chars_of(line);
    let (a, b) = trim_bounds(&v);
    if a == b {
        return crate::text::str_contains(prompt, "[Y/n]");
    }
    let mut lower = String::new();
    let mut k = a;
    while k < b
        invariant
            a <= k <= b <= v@.len(),
            lower@ == ascii_lower_seq(v@.subrange(a as int, k as int)),
        decreases b - k,
    {
        push_char(&mut lower, to_ascii_lower(v[k]));
        assert(ascii_lower_seq(v@.subrange(a as int, k + 1)) =~= ascii_lower_seq(v@.subrange(a as int, k as int)).push(
            crate::text::ascii_lower(v@[k as int]),
        ));
        k = k + 1;
    }
    str_eq(lower.as_str(), "y") || str_eq(lower.as_str(), "yes")
}

/// A path written with backslashes only and without trailing separators.
pub open spec fn spec_normalize_path(p: Seq<char>) -> Seq<char> {
    let r = p.map_values(|c: char| if c == '/' { '\\' } else { c });
    r.take(trailing_backslash_start(r, r.len() as int))
}

/// Start of the run of backslashes that ends at `j`.
pub open spec fn trailing_backslash_start(s: Seq<char>, j: int) -> int
    decreases j,
{
    if 0 < j <= s.len() && s[j - 1] == '\\' {
        trailing_backslash_start(s, j - 1)
    } else {
        j
    }
}

pub fn normalize_path_string(path: &str) -> (r: String)
    ensures
        r@ == spec_normalize_path(path@),
{
    let v = chars_of(path);
    let mut w: Vec<char> = Vec::new();
    let mut k: usize = 0;
    while k < v.len()
        invariant
            k <= v@.len(),
            w@ == v@.take(k as int).map_values(|c: char| if c == '/' { '\\' } else { c }),
        decreases v@.len() - k,
    {
        let c = v[k];
        w.push(if c == '/' { '\\' } else { c });
        assert(v@.take(k + 1) =~= v@.take(k as int).push(c));
        assert(w@ =~= v@.take(k + 1).map_values(|c: char| if c == '/' { '\\' } else { c }));
        k = k + 1;
    }
    assert(v@.take(v@.len() as int) =~= v@);
    let mut e = w.len();
    while e > 0 && w[e - 1] == '\\'
        invariant
            e <= w@.len(),
            trailing_backslash_start(w@, e as int) == trailing_backslash_start(w@, w@.len() as int),
        decreases e,
    {
        e = e - 1;
    }
    assert(w@.subrange(0, e as int) =~= w@.take(e as int));
    string_from_chars(&w, 0, e)
}

/// The last-resort comparison of two paths: equal once normalized, ignoring
/// ASCII case.
pub fn same_path_text(a: &str, b: &str) -> (r: bool)
    ensures
        r == (ascii_lower_seq(spec_normalize_path(a@)) == ascii_lower_seq(spec_normalize_path(b@))),
{
    let na = chars_of(normalize_path_string(a).as_str());
    let nb = chars_of(normalize_path_string(b).as_str());
    if na.len() != nb.len() {
        assert(ascii_lower_seq(na@).len() != ascii_lower_seq(nb@).len());
        return false;
    }
    let mut k: usize = 0;
    while k < na.len()
        invariant
            na@.len() == nb@.len(),
            na@ == spec_normalize_path(a@),
            nb@ == spec_normalize_path(b@),
            k <= na@.len(),
            forall|j: int| 0 <= j < k ==> crate::text::ascii_lower(na@[j]) == crate::text::ascii_lower(nb@[j]),
        decreases na@.len() - k,
    {
        if to_ascii_lower(na[k]) != to_ascii_lower(nb[k]) {
            assert(ascii_lower_seq(na@)[k as int] == crate::text::ascii_lower(na@[k as int]));
            assert(ascii_lower_seq(nb@)[k as int] == crate::text::ascii_lower(nb@[k as int]));
            assert(ascii_lower_seq(na@)[k as int] != ascii_lower_seq(nb@)[k as int]);
            return false;
        }
        k = k + 1;
    }
    assert(ascii_lower_seq(na@) =~= ascii_lower_seq(nb@));
    true
}

/// How the uninstall command confirms removing the binary.
#[derive(Debug, Clone, Copy, PartialEq, Eq, Structural)]
pub enum RemovalConfirmation {
    /// `--yes` was given: remove without asking.
    Skip,
    /// Ask on the terminal.
    Ask,
    /// Not on a terminal and no `--yes`: refuse.
    Refuse,
}

/// Removal is confirmed by `--yes`, else by asking on a terminal; without a
/// terminal the command refuses.
pub fn removal_confirmation(yes: bool, tty: bool) -> (r: RemovalConfirmation)
    ensures
        yes ==> r == RemovalConfirmation::Skip,
        !yes && tty ==> r == RemovalConfirmation::Ask,
        !yes && !tty ==> r == RemovalConfirmation::Refuse,
{
    if yes {
        RemovalConfirmation::Skip
    } else if tty {
        RemovalConfirmation::Ask
    } else {
        RemovalConfirmation::Refuse
    }
}

/// Whether the settings file goes too, or the question to settle it.
#[derive(Debug, Clone, Copy, PartialEq, Eq, Structural)]
pub enum PurgeDecision {
    Purge,
    Keep,
    /// Ask "keep settings?" on the terminal; a "no" purges.
    Ask,
}

/// `--purge` purges, `--keep-data` keeps, else a terminal is asked and
/// without one the settings are kept.
pub fn purge_decision(purge: bool, keep_data: bool, tty: bool) -> (r: PurgeDecision)
    ensures
        purge ==> r == PurgeDecision::Purge,
        !purge && keep_data ==> r == PurgeDecision::Keep,
        !purge && !keep_data && tty ==> r == PurgeDecision::Ask,
        !purge && !keep_data && !tty ==> r == PurgeDecision::Keep,
{
    if purge {
        PurgeDecision::Purge
    } else if keep_data {
        PurgeDecision::Keep
    } else if tty {
        PurgeDecision::Ask
    } else {
        PurgeDecision::Keep
    }
}

/// The closing line of `update`, given the latest release version when it
/// could be fetched.
pub open spec fn spec_update_report(latest: Option<Seq<char>>) -> Seq<char> {
    match latest {
        Some(v) => if v == PKG_VERSION@ {
            "Already up to date ("@ + v + ")."@
        } else {
            "Updated toward latest release ("@ + v + "). Restart any open sessions."@
        },
        None => "Install script finished. Run `ohmylogcat --version` to confirm."@,
    }
}

pub fn update_report(latest: Option<&str>) -> (r: String)
    ensures
        r@ == spec_update_report(
            match latest {
                Some(v) => Some(v@),
                None => None,
            },
        ),
{
    match latest {
        Some(v) => {
            let mut s = String::new();
            if str_eq(v, PKG_VERSION) {
                push_str_chars(&mut s, "Already up to date (");
                push_str_chars(&mut s, v);
                push_str_chars(&mut s, ").");
            } else {
                push_str_chars(&mut s, "Updated toward latest release (");
                push_str_chars(&mut s, v);
                push_str_chars(&mut s, "). Restart any open sessions.");
            }
            s
        },
        None => "Install script finished. Run `ohmylogcat --version` to confirm.".to_owned(),
    }
}

} // verus!
