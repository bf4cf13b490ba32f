//! The decisions around the `adb` executable: which path to use, what its
//! version check and device list say.

use vstd::prelude::*;
use crate::text::{
    chars_of, is_ws, lemma_word_end, lemma_ws_end, push_str_chars, skip_word, skip_ws, spec_trim,
    string_from_chars, trim_str, word_end, ws_end, seq_contains, contains_chars,
};

verus! {

/// A device as `adb devices` lists it.
#[derive(Debug, Clone)]
pub struct Device {
    pub serial: String,
    pub state: String,
}

pub open spec fn result_view(r: Result<String, String>) -> Result<Seq<char>, Seq<char>> {
    match r {
        Ok(s) => Ok(s@),
        Err(e) => Err(e@),
    }
}

/// The message when nothing was found.
pub open spec fn not_found_message() -> Seq<char> {
    "ADB not found. Install Android SDK platform-tools or configure adb path in settings."@
}

/// The outcome of looking through the fallback locations, given whether
/// each of the first `answers.len()` of them exists: the first that does,
/// or the not-found error once all were checked.
pub open spec fn defaults_outcome(defaults: Seq<&str>, answers: Seq<bool>) -> Option<Result<Seq<char>, Seq<char>>>
    decreases answers.len(),
{
    if answers.len() == 0 {
        if defaults.len() == 0 {
            Some(Err(not_found_message()))
        } else {
            None
        }
    } else {
        match defaults_outcome(defaults, answers.drop_last()) {
            Some(r) => Some(r),
            None => if answers.len() > defaults.len() {
                None
            } else if answers.last() {
                Some(Ok(defaults[answers.len() - 1]@))
            } else if answers.len() == defaults.len() {
                Some(Err(not_found_message()))
            } else {
                None
            },
        }
    }
}

/// Resolve the adb executable: a configured path (when not empty) must
/// exist; otherwise the one found on `PATH`; otherwise the first of the
/// well-known locations that exists.
pub fn resolve_adb_path(
    configured: Option<&str>,
    path_exists: impl Fn(&str) -> bool,
    which: impl Fn() -> Option<String>,
    defaults: &[&str],
) -> (r: Result<String, String>)
    requires
        forall|p: &str| call_requires(path_exists, (p,)),
        call_requires(which, ()),
    ensures
        (configured matches Some(p) && p@.len() > 0) ==> exists|b: bool|
            call_ensures(path_exists, (configured->0,), b) && result_view(r) == #[trigger] configured_outcome(
                configured->0@,
                b,
            ),
        !(configured matches Some(p) && p@.len() > 0) ==> exists|w: Option<String>|
            call_ensures(which, (), w) && #[trigger] which_or_defaults_ok(path_exists, defaults, w, r),
{
    if let Some(path) = configured {
        if !path.is_empty() {
            let b = path_exists(path);
            if b {
                let r = Ok(path.to_owned());
                assert(call_ensures(path_exists, (path,), b) && result_view(r) == configured_outcome(path@, b));
                return r;
            }
            let mut e = String::new();
            push_str_chars(&mut e, "ADB not found at configured path: ");
            push_str_chars(&mut e, path);
            let r = Err(e);
            assert(call_ensures(path_exists, (path,), b) && result_view(r) == configured_outcome(path@, b));
            return r;
        }
    }
    let w = which();
    let ghost gw = w;
    if let Some(p) = w {
        let r = Ok(p);
        assert(call_ensures(which, (), gw) && which_or_defaults_ok(path_exists, defaults, gw, r));
        return r;
    }
    let mut i: usize = 0;
    let ghost mut answers: Seq<bool> = Seq::empty();
    while i < defaults.len()
        invariant
            forall|p: &str| call_requires(path_exists, (p,)),
            i <= defaults@.len(),
            answers.len() == i,
            forall|k: int| 0 <= k < i ==> call_ensures(path_exists, (defaults@[k],), #[trigger] answers[k]),
            i < defaults@.len() ==> defaults_outcome(defaults@, answers) is None,
            i == defaults@.len() ==> defaults_outcome(defaults@, answers) == Some(Err::<Seq<char>, Seq<char>>(not_found_message())),
            !(configured matches Some(p) && p@.len() > 0),
            call_ensures(which, (), gw),
            gw is None,
        decreases defaults@.len() - i,
    {
        let p = defaults[i];
        let b = path_exists(p);
        proof {
            let prev = answers;
            answers = answers.push(b);
            assert(answers.drop_last() =~= prev);
            assert forall|k: int| 0 <= k < i + 1 implies call_ensures(path_exists, (defaults@[k],), #[trigger] answers[k]) by {
                if k < i {
                    assert(answers[k] == prev[k]);
                }
            }
        }
        if b {
            let r = Ok(p.to_owned());
            assert(defaults_outcome(defaults@, answers) == Some(Ok::<Seq<char>, Seq<char>>(p@)));
            assert(defaults_ok(path_exists, defaults, answers, r));
            assert(call_ensures(which, (), gw) && which_or_defaults_ok(path_exists, defaults, gw, r));
            return r;
        }
        i = i + 1;
    }
    let mut e = String::new();
    push_str_chars(&mut e, "ADB not found. Install Android SDK platform-tools or configure adb path in settings.");
    let r = Err(e);
    assert(defaults_outcome(defaults@, answers) == Some(Err::<Seq<char>, Seq<char>>(not_found_message())));
    assert(defaults_ok(path_exists, defaults, answers, r));
    assert(call_ensures(which, (), gw) && which_or_defaults_ok(path_exists, defaults, gw, r));
    r
}

/// The outcome for a configured path, given whether it exists.
pub open spec fn configured_outcome(path: Seq<char>, exists: bool) -> Result<Seq<char>, Seq<char>> {
    if exists {
        Ok(path)
    } else {
        Err("ADB not found at configured path: "@ + path)
    }
}

/// Some answers of `exists` for the first fallback locations give `r`.
pub open spec fn defaults_ok<F: Fn(&str) -> bool>(path_exists: F, defaults: &[&str], answers: Seq<bool>, r: Result<String, String>) -> bool {
    &&& forall|k: int| 0 <= k < answers.len() ==> call_ensures(path_exists, (defaults@[k],), #[trigger] answers[k])
    &&& defaults_outcome(defaults@, answers) == Some(result_view(r))
}

/// Outcome without a configured path: the path found on `PATH` when there
/// is one, else the look through the fallback locations.
pub open spec fn which_or_defaults_ok<F: Fn(&str) -> bool>(path_exists: F, defaults: &[&str], w: Option<String>, r: Result<String, String>) -> bool {
    match w {
        Some(p) => result_view(r) == Ok::<Seq<char>, Seq<char>>(p@),
        None => exists|answers: Seq<bool>| #[trigger] defaults_ok(path_exists, defaults, answers, r),
    }
}


/// What `adb --version` reported: on success its output trimmed, or its
/// error output trimmed when the output is empty; on failure an error with
/// the trimmed error output.
pub open spec fn spec_version_outcome(success: bool, stdout: Seq<char>, stderr: Seq<char>) -> Result<Seq<char>, Seq<char>> {
    if success {
        if spec_trim(stdout).len() == 0 {
            Ok(spec_trim(stderr))
        } else {
            Ok(spec_trim(stdout))
        }
    } else {
        Err("ADB version check failed: "@ + spec_trim(stderr))
    }
}

pub fn version_check_outcome(success: bool, stdout: &str, stderr: &str) -> (r: Result<String, String>)
    ensures
        result_view(r) == spec_version_outcome(success, stdout@, stderr@),
{
    if success {
        let version = trim_str(stdout);
        if version.as_str().is_empty() {
            // adb sometimes outputs version on stderr
            Ok(trim_str(stderr))
        } else {
            Ok(version)
        }
    } else {
        let mut e = String::new();
        push_str_chars(&mut e, "ADB version check failed: ");
        push_str_chars(&mut e, trim_str(stderr).as_str());
        Err(e)
    }
}

/// Index of the first `'\n'` at or after `i` (or the length).
pub open spec fn newline_at_or_after(s: Seq<char>, i: int) -> int
    decreases s.len() - i,
{
    if 0 <= i < s.len() && s[i] != '\n' {
        newline_at_or_after(s, i + 1)
    } else {
        i
    }
}

pub proof fn lemma_newline_at_or_after(s: Seq<char>, i: int)
    requires
        0 <= i <= s.len(),
    ensures
        i <= newline_at_or_after(s, i) <= s.len(),
        newline_at_or_after(s, i) < s.len() ==> s[newline_at_or_after(s, i)] == '\n',
    decreases s.len() - i,
{
    if i < s.len() && s[i] != '\n' {
        lemma_newline_at_or_after(s, i + 1);
    }
}

/// A line without its `"\r"` when it was ended by `"\r\n"`.
pub open spec fn strip_cr(line: Seq<char>, ended: bool) -> Seq<char> {
    if ended && line.len() > 0 && line.last() == '\r' {
        line.drop_last()
    } else {
        line
    }
}

/// `str::lines` of `s[i..]`: split at `'\n'`, a `'\r'` before it dropped,
/// with no empty line after a final line break.
pub open spec fn lines_from(s: Seq<char>, i: int) -> Seq<Seq<char>>
    decreases s.len() - i,
{
    if i < 0 || i >= s.len() {
        Seq::empty()
    } else {
        let j = newline_at_or_after(s, i);
        proof {
            lemma_newline_at_or_after(s, i);
        }
        if j < s.len() {
            seq![strip_cr(s.subrange(i, j), true)] + lines_from(s, j + 1)
        } else {
            seq![s.subrange(i, s.len() as int)]
        }
    }
}

/// The lines after the first (none when there are none).
pub open spec fn after_header(lines: Seq<Seq<char>>) -> Seq<Seq<char>> {
    if lines.len() == 0 {
        lines
    } else {
        lines.skip(1)
    }
}

/// The device a listing line names: its first two whitespace-separated
/// words, skipping the header and blank lines.
pub open spec fn device_of_line(line: Seq<char>) -> Option<(Seq<char>, Seq<char>)> {
    let a = ws_end(line, 0);
    let b = word_end(line, a);
    let c = ws_end(line, b);
    let d = word_end(line, c);
    if seq_contains(line, "List of"@) || spec_trim(line).len() == 0 {
        None
    } else if c < line.len() {
        Some((line.subrange(a, b), line.subrange(c, d)))
    } else {
        None
    }
}

/// The devices named by `lines`, in order.
pub open spec fn devices_of(lines: Seq<Seq<char>>) -> Seq<(Seq<char>, Seq<char>)>
    decreases lines.len(),
{
    if lines.len() == 0 {
        Seq::empty()
    } else {
        let r = devices_of(lines.drop_last());
        match device_of_line(lines.last()) {
            Some(d) => r.push(d),
            None => r,
        }
    }
}

/// Devices as `(serial, state)` texts.
pub open spec fn device_views(v: Seq<Device>) -> Seq<(Seq<char>, Seq<char>)> {
    v.map_values(|d: Device| (d.serial@, d.state@))
}

fn device_from_line(line: &Vec<char>) -> (r: Option<Device>)
    ensures
        match device_of_line(line@) {
            Some((s, t)) => r matches Some(d) && d.serial@ == s && d.state@ == t,
            None => r is None,
        },
{
    let mut lo: Vec<char> = Vec::new();
    lo.push('L');
    lo.push('i');
    lo.push('s');
    lo.push('t');
    lo.push(' ');
    lo.push('o');
    lo.push('f');
    proof {
        reveal_strlit("List of");
        assert(lo@ =~= "List of"@);
    }
    if contains_chars(line, &lo) {
        return None;
    }
    let a = skip_ws(line, 0);
    proof {
        lemma_ws_end(line@, 0);
        crate::text::lemma_ws_start_back(line@.skip(a as int), line@.len() - a);
    }
    if a == line.len() {
        assert(line@.skip(a as int) =~= Seq::<char>::empty());
        return None;
    }
    proof {
        assert(!is_ws(line@[a as int]));
        let t = line@.skip(a as int);
        assert(t[0] == line@[a as int]);
        crate::text::lemma_ws_start_back(t, t.len() as int);
        if crate::text::ws_start_back(t, t.len() as int) == 0 {
            assert(is_ws(t[0]));
        }
    }
    let b = skip_word(line, a);
    let c = skip_ws(line, b);
    if c == line.len() {
        return None;
    }
    let d = skip_word(line, c);
    Some(Device { serial: string_from_chars(line, a, b), state: string_from_chars(line, c, d) })
}

/// The devices in the output of `adb devices` (the first line is its header).
pub fn parse_device_list(stdout: &str) -> (r: Vec<Device>)
    ensures
        device_views(r@) == devices_of(after_header(lines_from(stdout@, 0))),
{
    let v = chars_of(stdout);
    let n = v.len();
    let mut devices: Vec<Device> = Vec::new();
    let mut i: usize = 0;
    let mut line_no: usize = 0;
    let ghost mut done: Seq<Seq<char>> = Seq::empty();
    while i < n
        invariant
            v@ == stdout@,
            n == v@.len(),
            i <= n,
            done.len() == line_no,
            lines_from(v@, 0) == done + lines_from(v@, i as int),
            device_views(devices@) == devices_of(after_header(done)),
            line_no <= i,
        decreases n - i,
    {
        proof {
            lemma_newline_at_or_after(v@, i as int);
        }
        let mut j = i;
        while j < n && v[j] != '\n'
            invariant
                i <= j <= n,
                n == v@.len(),
                newline_at_or_after(v@, j as int) == newline_at_or_after(v@, i as int),
            decreases n - j,
        {
            j = j + 1;
        }
        let ended = j < n;
        let mut end = j;
        if ended && end > i && v[end - 1] == '\r' {
            end = end - 1;
        }
        let mut line: Vec<char> = Vec::new();
        let mut k = i;
        while k < end
            invariant
                i <= k <= end <= n,
                n == v@.len(),
                line@ == v@.subrange(i as int, k as int),
            decreases end - k,
        {
            line.push(v[k]);
            assert(v@.subrange(i as int, k + 1) =~= v@.subrange(i as int, k as int).push(v@[k as int]));
            k = k + 1;
        }
        let ghost this_line = line@;
        let ghost old_done = done;
        proof {
            if ended {
                assert(this_line =~= strip_cr(v@.subrange(i as int, j as int), true));
            } else {
                assert(this_line =~= v@.subrange(i as int, n as int));
            }
            let prev = done;
            done = done.push(this_line);
            assert(lines_from(v@, i as int) == seq![this_line] + lines_from(v@, if ended { j + 1 } else { n as int }));
            assert(done + lines_from(v@, if ended { j + 1 } else { n as int }) =~= prev + lines_from(v@, i as int));
        }
        if line_no == 0 {
            proof {
                assert(after_header(done) =~= Seq::<Seq<char>>::empty());
            }
        }
        if line_no >= 1 {
            let ghost before = device_views(devices@);
            match device_from_line(&line) {
                Some(d) => {
                    devices.push(d);
                },
                None => {},
            }
            proof {
                assert(done.drop_last() =~= old_done);
                assert(after_header(done).drop_last() =~= after_header(old_done));
                assert(after_header(done).last() == this_line);
                assert(after_header(done).len() > 0);
                match device_of_line(this_line) {
                    Some(dv) => {
                        assert(devices_of(after_header(done)) == devices_of(after_header(old_done)).push(dv));
                        assert(device_views(devices@) =~= before.push(dv));
                    },
                    None => {
                        assert(devices_of(after_header(done)) == devices_of(after_header(old_done)));
                        assert(device_views(devices@) =~= before);
                    },
                }
            }
        }
        line_no = line_no + 1;
        i = if ended {
            j + 1
        } else {
            n
        };
    }
    proof {
        assert(lines_from(v@, n as int) == Seq::<Seq<char>>::empty());
        assert(done =~= lines_from(v@, 0));
    }
    devices
}

/// What `adb devices` reported: the listed devices, or an error with the
/// trimmed error output when it failed.
pub fn devices_outcome(success: bool, stdout: &str, stderr: &str) -> (r: Result<Vec<Device>, String>)
    ensures
        !success ==> (r matches Err(e) && e@ == "adb devices failed: "@ + spec_trim(stderr@)),
        success ==> (r matches Ok(d) && device_views(d@) == devices_of(after_header(lines_from(stdout@, 0)))),
{
    if !success {
        let mut e = String::new();
        push_str_chars(&mut e, "adb devices failed: ");
        push_str_chars(&mut e, trim_str(stderr).as_str());
        return Err(e);
    }
    Ok(parse_device_list(stdout))
}

} // verus!
