//! What an uninstall command will do: turning MSI install commands into
//! uninstall commands, choosing how to launch a command, and judging whether
//! it can run.

use vstd::prelude::*;
use crate::text::{
    contains_chars, contains_seq,
    ascii_lower_char, lemma_trim_idempotent,
    append_chars, append_str, str_chars_concat, ascii_lower, ascii_lower_chars, chars_eq_str, chars_of, contains_char, has_char, string_of,
    trim, trim_chars,
};
use crate::installed_app::InstalledApp;
use crate::command_line::{
    lemma_joined_trimmed, lemma_tokens_of_joined, lemma_tokens_plain, plain_token, char_seqs, command_tokens, join_chars, joined_command, split_chars, string_seqs,
};

verus! {

/// The part of a path after its last backslash (all of it when there is none).
pub open spec fn last_component(s: Seq<char>) -> Seq<char>
    decreases s.len(),
{
    if s.len() == 0 {
        s
    } else if s.last() == '\\' {
        Seq::empty()
    } else {
        last_component(s.drop_last()).push(s.last())
    }
}

pub open spec fn slash_to_backslash(s: Seq<char>) -> Seq<char> {
    s.map_values(|c: char| if c == '/' { '\\' } else { c })
}

/// The lower-cased file name of a program path, with either kind of slash.
pub open spec fn program_file_name(program: Seq<char>) -> Seq<char> {
    last_component(ascii_lower(slash_to_backslash(program)))
}

pub open spec fn spec_is_msiexec_program(program: Seq<char>) -> bool {
    let f = program_file_name(program);
    f == "msiexec"@ || f == "msiexec.exe"@
}

pub open spec fn spec_is_known_windows_launcher(program: Seq<char>) -> bool {
    let f = program_file_name(program);
    ||| f == "msiexec"@
    ||| f == "msiexec.exe"@
    ||| f == "rundll32"@
    ||| f == "rundll32.exe"@
    ||| f == "control"@
    ||| f == "control.exe"@
    ||| f == "powershell"@
    ||| f == "powershell.exe"@
    ||| f == "pwsh"@
    ||| f == "pwsh.exe"@
    ||| f == "wscript"@
    ||| f == "wscript.exe"@
    ||| f == "cscript"@
    ||| f == "cscript.exe"@
}

/// An MSI switch `/<letter>` or `-<letter>`, alone or followed by `{`,
/// in either case.
pub open spec fn is_msi_flag(arg: Seq<char>, letter: char) -> bool {
    let l = ascii_lower(arg);
    &&& l.len() >= 2
    &&& (l[0] == '/' || l[0] == '-')
    &&& l[1] == letter
    &&& (l.len() == 2 || l[2] == '{')
}

pub open spec fn spec_is_msi_install_arg(arg: Seq<char>) -> bool {
    is_msi_flag(arg, 'i')
}

pub open spec fn spec_is_msi_uninstall_arg(arg: Seq<char>) -> bool {
    is_msi_flag(arg, 'x')
}

/// An install switch turned into the uninstall switch: its second character
/// becomes `X`.
pub open spec fn uninstall_flag(arg: Seq<char>) -> Seq<char> {
    seq![arg[0], 'X'] + arg.skip(2)
}

/// The tokens with the first install switch at or after `i` replaced.
pub open spec fn replace_install_from(ts: Seq<Seq<char>>, i: int) -> Seq<Seq<char>>
    decreases ts.len() - i,
{
    if i < 0 || i >= ts.len() {
        ts
    } else if spec_is_msi_install_arg(ts[i]) {
        ts.update(i, uninstall_flag(ts[i]))
    } else {
        replace_install_from(ts, i + 1)
    }
}

pub open spec fn has_arg_from(ts: Seq<Seq<char>>, letter: char) -> bool {
    exists|i: int| 1 <= i < ts.len() && is_msi_flag(#[trigger] ts[i], letter)
}

/// An MSI installer call with an install switch and no uninstall switch.
pub open spec fn spec_looks_like_msiexec_install(command: Seq<char>) -> bool {
    let ts = command_tokens(command);
    &&& ts.len() > 0
    &&& spec_is_msiexec_program(ts[0])
    &&& has_arg_from(ts, 'i')
    &&& !has_arg_from(ts, 'x')
}

/// The command that is run to uninstall: the trimmed registry command, with
/// an MSI install call turned into an uninstall call.
pub open spec fn uninstall_command(raw: Seq<char>) -> Seq<char> {
    let t = trim(raw);
    if spec_looks_like_msiexec_install(t) {
        joined_command(replace_install_from(command_tokens(t), 1))
    } else {
        t
    }
}

pub open spec fn spec_requires_shell(command: Seq<char>) -> bool {
    ||| has_char(command, '%')
    ||| has_char(command, '&')
    ||| has_char(command, '|')
    ||| has_char(command, '<')
    ||| has_char(command, '>')
}

/// The program and arguments of a command, when its first token is not blank.
pub open spec fn spec_program_and_args(command: Seq<char>) -> Option<(Seq<char>, Seq<Seq<char>>)> {
    let ts = command_tokens(command);
    if ts.len() == 0 || trim(ts[0]).len() == 0 {
        None
    } else {
        Some((ts[0], ts.skip(1)))
    }
}

#[derive(Clone, Copy, Debug, PartialEq, Eq, Structural)]
pub enum CommandLaunchMode {
    Direct,
    Shell,
}

pub open spec fn spec_launch_mode(command: Seq<char>) -> CommandLaunchMode {
    if spec_requires_shell(command) || spec_program_and_args(command) is None {
        CommandLaunchMode::Shell
    } else {
        CommandLaunchMode::Direct
    }
}

impl CommandLaunchMode {
    pub open spec fn spec_label(self) -> Seq<char> {
        match self {
            CommandLaunchMode::Direct => "직접 실행"@,
            CommandLaunchMode::Shell => "셸 실행"@,
        }
    }

    pub fn label(self) -> (r: &'static str)
        ensures
            r@ == self.spec_label(),
    {
        match self {
            CommandLaunchMode::Direct => "직접 실행",
            CommandLaunchMode::Shell => "셸 실행",
        }
    }
}

fn last_component_chars(s: &[char]) -> (r: Vec<char>)
    ensures
        r@ == last_component(s@),
{
    let n = s.len();
    let mut k: usize = n;
    assert(s@.subrange(n as int, n as int) =~= Seq::<char>::empty());
    assert(s@.take(n as int) =~= s@);
    while k > 0 && s[k - 1] != '\\'
        invariant
            n == s@.len(),
            k <= n,
            last_component(s@) == last_component(s@.take(k as int)) + s@.subrange(
                k as int,
                n as int,
            ),
        decreases k,
    {
        assert(s@.take(k as int).drop_last() =~= s@.take(k - 1));
        assert(s@.take(k as int).last() == s@[k - 1]);
        assert(s@.subrange(k - 1, n as int) =~= seq![s@[k - 1]] + s@.subrange(k as int, n as int));
        k = k - 1;
    }
    if k == 0 {
        assert(s@.take(0) =~= Seq::<char>::empty());
    } else {
        assert(s@.take(k as int).last() == s@[k - 1]);
    }
    let mut r: Vec<char> = Vec::new();
    let mut i = k;
    while i < n
        invariant
            n == s@.len(),
            k <= i <= n,
            r@ == s@.subrange(k as int, i as int),
        decreases n - i,
    {
        r.push(s[i]);
        i = i + 1;
        assert(r@ =~= s@.subrange(k as int, i as int));
    }
    assert(Seq::<char>::empty() + r@ =~= r@);
    r
}

fn program_file_name_chars(program: &[char]) -> (r: Vec<char>)
    ensures
        r@ == program_file_name(program@),
{
    let mut slashed: Vec<char> = Vec::new();
    let mut i: usize = 0;
    while i < program.len()
        invariant
            i <= program@.len(),
            slashed@ == slash_to_backslash(program@.take(i as int)),
        decreases program@.len() - i,
    {
        let c = program[i];
        if c == '/' {
            slashed.push('\\');
        } else {
            slashed.push(c);
        }
        i = i + 1;
        assert(slashed@ =~= slash_to_backslash(program@.take(i as int)));
    }
    assert(program@.take(program@.len() as int) =~= program@);
    let lower = ascii_lower_chars(slashed.as_slice());
    last_component_chars(lower.as_slice())
}

pub fn is_msiexec_program_chars(program: &[char]) -> (r: bool)
    ensures
        r == spec_is_msiexec_program(program@),
{
    let f = program_file_name_chars(program);
    chars_eq_str(f.as_slice(), "msiexec") || chars_eq_str(f.as_slice(), "msiexec.exe")
}

/// Whether a program is the Windows Installer (`msiexec`).
pub fn is_msiexec_program(program: &str) -> (r: bool)
    ensures
        r == spec_is_msiexec_program(program@),
{
    let v = chars_of(program);
    is_msiexec_program_chars(v.as_slice())
}

pub fn is_known_windows_launcher_chars(program: &[char]) -> (r: bool)
    ensures
        r == spec_is_known_windows_launcher(program@),
{
    let f = program_file_name_chars(program);
    let f = f.as_slice();
    chars_eq_str(f, "msiexec") || chars_eq_str(f, "msiexec.exe") || chars_eq_str(f, "rundll32")
        || chars_eq_str(f, "rundll32.exe") || chars_eq_str(f, "control") || chars_eq_str(
        f,
        "control.exe",
    ) || chars_eq_str(f, "powershell") || chars_eq_str(f, "powershell.exe") || chars_eq_str(
        f,
        "pwsh",
    ) || chars_eq_str(f, "pwsh.exe") || chars_eq_str(f, "wscript") || chars_eq_str(
        f,
        "wscript.exe",
    ) || chars_eq_str(f, "cscript") || chars_eq_str(f, "cscript.exe")
}

/// Whether a program is one of the Windows launchers that uninstall commands
/// commonly start.
pub fn is_known_windows_launcher(program: &str) -> (r: bool)
    ensures
        r == spec_is_known_windows_launcher(program@),
{
    let v = chars_of(program);
    is_known_windows_launcher_chars(v.as_slice())
}

fn is_msi_flag_chars(arg: &[char], letter: char) -> (r: bool)
    ensures
        r == is_msi_flag(arg@, letter),
{
    let l = ascii_lower_chars(arg);
    l.len() >= 2 && (l[0] == '/' || l[0] == '-') && l[1] == letter && (l.len() == 2 || l[2]
        == '{')
}

/// Whether an argument is an MSI install switch (`/i`, `-i`, `/i{...}`, ...).
pub fn is_msi_install_arg(arg: &str) -> (r: bool)
    ensures
        r == spec_is_msi_install_arg(arg@),
{
    let v = chars_of(arg);
    is_msi_flag_chars(v.as_slice(), 'i')
}

/// Whether an argument is an MSI uninstall switch (`/x`, `-x`, `/x{...}`, ...).
pub fn is_msi_uninstall_arg(arg: &str) -> (r: bool)
    ensures
        r == spec_is_msi_uninstall_arg(arg@),
{
    let v = chars_of(arg);
    is_msi_flag_chars(v.as_slice(), 'x')
}

fn has_arg_from_chars(ts: &Vec<Vec<char>>, letter: char) -> (r: bool)
    ensures
        r == has_arg_from(char_seqs(ts@), letter),
{
    let ghost s = char_seqs(ts@);
    let mut i: usize = 1;
    while i < ts.len()
        invariant
            s == char_seqs(ts@),
            1 <= i,
            forall|j: int| 1 <= j < i && j < s.len() ==> !is_msi_flag(#[trigger] s[j], letter),
        decreases ts@.len() - i,
    {
        if is_msi_flag_chars(ts[i].as_slice(), letter) {
            assert(is_msi_flag(s[i as int], letter));
            return true;
        }
        i = i + 1;
    }
    false
}

fn looks_like_msiexec_install_chars(command: &[char]) -> (r: bool)
    ensures
        r == spec_looks_like_msiexec_install(command@),
{
    let ts = split_chars(command);
    if ts.len() == 0 {
        return false;
    }
    assert(char_seqs(ts@)[0] == ts@[0]@);
    is_msiexec_program_chars(ts[0].as_slice()) && has_arg_from_chars(&ts, 'i')
        && !has_arg_from_chars(&ts, 'x')
}

/// Whether a command calls the MSI installer to install rather than to remove.
pub fn looks_like_msiexec_install(command: &str) -> (r: bool)
    ensures
        r == spec_looks_like_msiexec_install(command@),
{
    let v = chars_of(command);
    looks_like_msiexec_install_chars(v.as_slice())
}

fn replace_first_install_chars(command: &[char]) -> (r: Vec<char>)
    ensures
        r@ == joined_command(replace_install_from(command_tokens(command@), 1)),
{
    let mut ts = split_chars(command);
    let ghost orig = char_seqs(ts@);
    let mut i: usize = 1;
    while i < ts.len()
        invariant
            char_seqs(ts@) == orig,
            orig == command_tokens(command@),
            1 <= i,
            replace_install_from(orig, 1) == replace_install_from(orig, i as int),
        decreases ts@.len() - i,
    {
        if is_msi_flag_chars(ts[i].as_slice(), 'i') {
            let mut flag: Vec<char> = Vec::new();
            flag.push(ts[i][0]);
            flag.push('X');
            let mut k: usize = 2;
            while k < ts[i].len()
                invariant
                    char_seqs(ts@) == orig,
                    orig == command_tokens(command@),
                    1 <= i < ts@.len(),
                    replace_install_from(orig, 1) == replace_install_from(orig, i as int),
                    is_msi_flag(orig[i as int], 'i'),
                    2 <= k <= ts@[i as int]@.len(),
                    flag@ == seq![orig[i as int][0], 'X'] + orig[i as int].subrange(2, k as int),
                decreases ts@[i as int]@.len() - k,
            {
                flag.push(ts[i][k]);
                k = k + 1;
                assert(flag@ =~= seq![orig[i as int][0], 'X'] + orig[i as int].subrange(
                    2,
                    k as int,
                ));
            }
            assert(orig[i as int].subrange(2, k as int) =~= orig[i as int].skip(2));
            let ghost before = ts@;
            ts.set(i, flag);
            assert(char_seqs(ts@) =~= orig.update(i as int, uninstall_flag(orig[i as int])));
            assert(spec_is_msi_install_arg(orig[i as int]));
            assert(replace_install_from(orig, i as int) == orig.update(
                i as int,
                uninstall_flag(orig[i as int]),
            ));
            return join_chars(&ts);
        }
        assert(!spec_is_msi_install_arg(orig[i as int]));
        i = i + 1;
    }
    join_chars(&ts)
}

/// Replaces the first MSI install switch after the program with the matching
/// uninstall switch, and writes the command line again.
pub fn replace_first_msi_install_flag(command: &str) -> (r: String)
    ensures
        r@ == joined_command(replace_install_from(command_tokens(command@), 1)),
{
    let v = chars_of(command);
    let r = replace_first_install_chars(v.as_slice());
    string_of(r.as_slice())
}

pub fn uninstall_command_chars(raw: &[char]) -> (r: Vec<char>)
    ensures
        r@ == uninstall_command(raw@),
{
    let t = trim_chars(raw);
    if looks_like_msiexec_install_chars(t.as_slice()) {
        replace_first_install_chars(t.as_slice())
    } else {
        t
    }
}

/// The command to run for a registry uninstall string.
pub fn make_uninstall_command(raw: &str) -> (r: String)
    ensures
        r@ == uninstall_command(raw@),
{
    let v = chars_of(raw);
    let r = uninstall_command_chars(v.as_slice());
    string_of(r.as_slice())
}

fn requires_shell_chars(command: &[char]) -> (r: bool)
    ensures
        r == spec_requires_shell(command@),
{
    contains_char(command, '%') || contains_char(command, '&') || contains_char(command, '|')
        || contains_char(command, '<') || contains_char(command, '>')
}

/// Whether a command needs `cmd.exe`: it expands variables or uses
/// redirection or pipes.
pub fn requires_shell(command_line: &str) -> (r: bool)
    ensures
        r == spec_requires_shell(command_line@),
{
    let v = chars_of(command_line);
    requires_shell_chars(v.as_slice())
}

fn program_and_args_chars(command: &[char]) -> (r: Option<(Vec<char>, Vec<Vec<char>>)>)
    ensures
        match r {
            None => spec_program_and_args(command@) is None,
            Some((p, a)) => spec_program_and_args(command@) == Some((p@, char_seqs(a@))),
        },
{
    let mut ts = split_chars(command);
    if ts.len() == 0 {
        return None;
    }
    let ghost all = char_seqs(ts@);
    let t0 = trim_chars(ts[0].as_slice());
    if t0.len() == 0 {
        return None;
    }
    let program = ts.remove(0);
    assert(char_seqs(ts@) =~= all.skip(1));
    Some((program, ts))
}

/// The program and its arguments, unless the command has no program.
pub fn split_program_and_args(command: &str) -> (r: Option<(String, Vec<String>)>)
    ensures
        match r {
            None => spec_program_and_args(command@) is None,
            Some((p, a)) => spec_program_and_args(command@) == Some((p@, string_seqs(a@))),
        },
{
    let v = chars_of(command);
    match program_and_args_chars(v.as_slice()) {
        None => None,
        Some((p, a)) => {
            let program = string_of(p.as_slice());
            let mut args: Vec<String> = Vec::new();
            let mut i: usize = 0;
            while i < a.len()
                invariant
                    i <= a@.len(),
                    string_seqs(args@) == char_seqs(a@).take(i as int),
                decreases a@.len() - i,
            {
                let s = string_of(a[i].as_slice());
                let ghost before = args@;
                args.push(s);
                assert(string_seqs(args@) =~= string_seqs(before).push(a@[i as int]@));
                i = i + 1;
                assert(string_seqs(args@) =~= char_seqs(a@).take(i as int));
            }
            assert(char_seqs(a@).take(a@.len() as int) =~= char_seqs(a@));
            Some((program, args))
        },
    }
}

pub fn launch_mode_chars(command: &[char]) -> (r: CommandLaunchMode)
    ensures
        r == spec_launch_mode(command@),
{
    if requires_shell_chars(command) || program_and_args_chars(command).is_none() {
        CommandLaunchMode::Shell
    } else {
        CommandLaunchMode::Direct
    }
}

/// How a command is started: through `cmd.exe` when it needs the shell or
/// names no program, directly otherwise.
pub fn launch_mode_for_command(command_line: &str) -> (r: CommandLaunchMode)
    ensures
        r == spec_launch_mode(command_line@),
{
    let v = chars_of(command_line);
    launch_mode_chars(v.as_slice())
}

#[derive(Clone, Copy, Debug, PartialEq, Eq, Structural)]
pub enum UninstallReadiness {
    Verified,
    NeedsShell,
    Unsupported,
}

#[derive(Clone, Debug)]
pub struct UninstallAssessment {
    pub status: UninstallReadiness,
    pub detail: String,
}

pub open spec fn empty_command_detail() -> Seq<char> {
    "제거 명령이 비어 있습니다."@
}

pub open spec fn shell_detail() -> Seq<char> {
    "환경 변수나 셸 연산자가 있어 실행 전 파일 존재 검증은 제한됩니다."@
}

pub open spec fn unparsed_detail() -> Seq<char> {
    "실행할 프로그램을 해석하지 못했습니다."@
}

pub open spec fn verified_detail() -> Seq<char> {
    "실행 파일 또는 Windows 제거 런처를 확인했습니다."@
}

pub open spec fn missing_program_prefix() -> Seq<char> {
    "실행 파일을 찾지 못했습니다: "@
}

/// The program whose file has to be looked up before the command can be
/// judged: a direct command whose program is not a known launcher.
pub open spec fn program_to_look_up(raw: Seq<char>) -> Option<Seq<char>> {
    let c = uninstall_command(raw);
    if trim(c).len() == 0 || spec_launch_mode(c) == CommandLaunchMode::Shell {
        None
    } else {
        match spec_program_and_args(c) {
            None => None,
            Some((p, _)) => if spec_is_known_windows_launcher(p) {
                None
            } else {
                Some(p)
            },
        }
    }
}

/// The judgement of a registry uninstall string, given whether the program
/// it names was found (asked only where `program_to_look_up` names one).
pub open spec fn assessment_of(raw: Seq<char>, program_found: bool) -> (
    UninstallReadiness,
    Seq<char>,
) {
    let c = uninstall_command(raw);
    if trim(c).len() == 0 {
        (UninstallReadiness::Unsupported, empty_command_detail())
    } else if spec_launch_mode(c) == CommandLaunchMode::Shell {
        (UninstallReadiness::NeedsShell, shell_detail())
    } else {
        match spec_program_and_args(c) {
            None => (UninstallReadiness::Unsupported, unparsed_detail()),
            Some((p, _)) => if spec_is_known_windows_launcher(p) || program_found {
                (UninstallReadiness::Verified, verified_detail())
            } else {
                (UninstallReadiness::Unsupported, missing_program_prefix() + p)
            },
        }
    }
}

impl UninstallAssessment {
    pub open spec fn spec_is_selectable(&self) -> bool {
        self.status != UninstallReadiness::Unsupported
    }

    /// Whether the command may be chosen for running: everything but
    /// unsupported commands.
    pub fn is_selectable(&self) -> (r: bool)
        ensures
            r == self.spec_is_selectable(),
    {
        match self.status {
            UninstallReadiness::Unsupported => false,
            _ => true,
        }
    }

    pub open spec fn spec_label(&self) -> Seq<char> {
        match self.status {
            UninstallReadiness::Verified => "검증됨"@,
            UninstallReadiness::NeedsShell => "셸 검증 제한"@,
            UninstallReadiness::Unsupported => "실행 불가"@,
        }
    }

    pub fn label(&self) -> (r: &'static str)
        ensures
            r@ == self.spec_label(),
    {
        match self.status {
            UninstallReadiness::Verified => "검증됨",
            UninstallReadiness::NeedsShell => "셸 검증 제한",
            UninstallReadiness::Unsupported => "실행 불가",
        }
    }
}

fn assessment(status: UninstallReadiness, detail: &str) -> (r: UninstallAssessment)
    ensures
        r.status == status,
        r.detail@ == detail@,
{
    UninstallAssessment { status, detail: detail.to_owned() }
}

/// Either the judgement that needs no lookup, or the program to look up.
fn lookup_or_assessment(raw: &[char]) -> (r: Result<Vec<char>, UninstallAssessment>)
    ensures
        match r {
            Ok(p) => program_to_look_up(raw@) == Some(p@),
            Err(a) => program_to_look_up(raw@) is None && (a.status, a.detail@) == assessment_of(
                raw@,
                false,
            ),
        },
{
    let command = uninstall_command_chars(raw);
    let t = trim_chars(command.as_slice());
    if t.len() == 0 {
        return Err(assessment(UninstallReadiness::Unsupported, "제거 명령이 비어 있습니다."));
    }
    if launch_mode_chars(command.as_slice()) == CommandLaunchMode::Shell {
        return Err(
            assessment(
                UninstallReadiness::NeedsShell,
                "환경 변수나 셸 연산자가 있어 실행 전 파일 존재 검증은 제한됩니다.",
            ),
        );
    }
    match program_and_args_chars(command.as_slice()) {
        None => Err(
            assessment(UninstallReadiness::Unsupported, "실행할 프로그램을 해석하지 못했습니다."),
        ),
        Some((program, _args)) => {
            if is_known_windows_launcher_chars(program.as_slice()) {
                Err(
                    assessment(
                        UninstallReadiness::Verified,
                        "실행 파일 또는 Windows 제거 런처를 확인했습니다.",
                    ),
                )
            } else {
                Ok(program)
            }
        },
    }
}

/// The judgement of a program that had to be looked up.
fn looked_up_assessment(program: &[char], found: bool) -> (r: UninstallAssessment)
    ensures
        found ==> r.status == UninstallReadiness::Verified && r.detail@ == verified_detail(),
        !found ==> r.status == UninstallReadiness::Unsupported && r.detail@
            == missing_program_prefix() + program@,
{
    if found {
        assessment(UninstallReadiness::Verified, "실행 파일 또는 Windows 제거 런처를 확인했습니다.")
    } else {
        let detail = str_chars_concat("실행 파일을 찾지 못했습니다: ", program);
        UninstallAssessment {
            status: UninstallReadiness::Unsupported,
            detail: string_of(detail.as_slice()),
        }
    }
}

/// Judges a registry uninstall string, given whether its program was found
/// where one had to be looked up.
pub fn assess_resolved_command(raw: &str, program_found: bool) -> (r: UninstallAssessment)
    ensures
        (r.status, r.detail@) == assessment_of(raw@, program_found),
{
    let v = chars_of(raw);
    match lookup_or_assessment(v.as_slice()) {
        Err(a) => a,
        Ok(program) => looked_up_assessment(program.as_slice(), program_found),
    }
}

/// Whether a file exists at a path (`Path::exists`). The answer depends on
/// the disk, so nothing is stated of it.
#[verifier::external_body]
fn path_exists(path: &str) -> bool {
    std::path::Path::new(path).exists()
}

/// A file name placed in a directory (`Path::join`). The separator that is
/// written depends on the platform, so nothing is stated of the result.
#[verifier::external_body]
fn path_join(dir: &str, name: &str) -> String {
    std::path::Path::new(dir).join(name).to_string_lossy().into_owned()
}

/// Whether a file name has an extension, as `Path::extension` reads it: a
/// `.` somewhere after the first character, the name `..` excepted.
pub open spec fn name_has_extension(name: Seq<char>) -> bool {
    name != ".."@ && exists|i: int| 1 <= i < name.len() && name[i] == '.'
}

/// A name with neither kind of slash nor a colon: one plain file name on
/// every platform.
pub open spec fn is_plain_file_name(name: Seq<char>) -> bool {
    !has_char(name, '/') && !has_char(name, '\\') && !has_char(name, ':')
}

/// Whether a file name has an extension, with `Path::extension`. Claimed,
/// as its documentation gives it, for a plain file name only: the result is
/// whether a `.` follows the first character, `..` excepted. Of names with a
/// slash or a colon, which some platforms read as paths or drive prefixes,
/// nothing is stated.
#[verifier::external_body]
fn path_has_extension(name: &str) -> (r: bool)
    ensures
        is_plain_file_name(name@) ==> r == name_has_extension(name@),
{
    std::path::Path::new(name).extension().is_some()
}

/// A place where the program's file is looked for: the program as written
/// (no directory), or a file name in a search directory.
#[derive(Clone, Debug)]
pub struct Probe {
    pub dir: Option<String>,
    pub name: String,
}

pub type ProbeView = (Option<Seq<char>>, Seq<char>);

impl View for Probe {
    type V = ProbeView;

    open spec fn view(&self) -> ProbeView {
        (
            match self.dir {
                Some(d) => Some(d@),
                None => None,
            },
            self.name@,
        )
    }
}

pub open spec fn has_path_separator(program: Seq<char>) -> bool {
    has_char(program, '\\') || has_char(program, '/')
}

/// The places looked at in one search directory: the name, then the name
/// with `.exe` added when it has no extension.
pub open spec fn dir_probes(dir: Seq<char>, name: Seq<char>, has_extension: bool) -> Seq<ProbeView> {
    if has_extension {
        seq![(Some(dir), name)]
    } else {
        seq![(Some(dir), name), (Some(dir), name + ".exe"@)]
    }
}

/// The places looked at for a bare name, directory by directory in order.
pub open spec fn search_plan(name: Seq<char>, dirs: Seq<Seq<char>>, has_extension: bool) -> Seq<
    ProbeView,
>
    decreases dirs.len(),
{
    if dirs.len() == 0 {
        Seq::empty()
    } else {
        search_plan(name, dirs.drop_last(), has_extension) + dir_probes(
            dirs.last(),
            name,
            has_extension,
        )
    }
}

/// The places a program is looked for: a program written with a slash is
/// checked where it stands; a bare name in each search directory.
pub open spec fn lookup_plan(program: Seq<char>, dirs: Seq<Seq<char>>, has_extension: bool) -> Seq<
    ProbeView,
> {
    if has_path_separator(program) {
        seq![(None, program)]
    } else {
        search_plan(program, dirs, has_extension)
    }
}

pub open spec fn dir_views(dirs: Seq<String>) -> Seq<Seq<char>> {
    dirs.map_values(|d: String| d@)
}

/// `file_exists` answered `b` when asked about the place `v`.
pub open spec fn answered<F: Fn(&Probe) -> bool>(file_exists: F, v: ProbeView, b: bool) -> bool {
    exists|q: Probe| q@ == v && #[trigger] call_ensures(file_exists, (&q,), b)
}

/// The places are asked in order until one holds the file: found means some
/// place answered yes after all before it answered no; not found means every
/// place answered no.
pub open spec fn first_hit<F: Fn(&Probe) -> bool>(file_exists: F, plan: Seq<ProbeView>, found: bool) -> bool {
    if found {
        exists|i: int|
            0 <= i < plan.len() && answered(file_exists, #[trigger] plan[i], true) && forall|j: int|
                0 <= j < i ==> answered(file_exists, #[trigger] plan[j], false)
    } else {
        forall|i: int| 0 <= i < plan.len() ==> answered(file_exists, #[trigger] plan[i], false)
    }
}

fn ask<F: Fn(&Probe) -> bool>(file_exists: &F, q: &Probe) -> (r: bool)
    requires
        forall|p: Probe| call_requires(*file_exists, (&p,)),
    ensures
        answered(*file_exists, q@, r),
{
    let r = file_exists(q);
    assert(call_ensures(*file_exists, (q,), r));
    r
}

/// Looks a program up by asking `file_exists` about each place of its
/// lookup plan in turn, stopping at the first that holds the file. The plan
/// for a bare name depends on whether it has an extension, which is read
/// with `Path::extension`; for a plain file name that is the documented
/// answer.
fn resolve_program<F: Fn(&Probe) -> bool>(program: &[char], search_dirs: &[String], file_exists: &F) -> (found: bool)
    requires
        forall|p: Probe| call_requires(*file_exists, (&p,)),
    ensures
        exists|e: bool|
            (is_plain_file_name(program@) ==> e == name_has_extension(program@)) && first_hit(
                *file_exists,
                lookup_plan(program@, dir_views(search_dirs@), e),
                found,
            ),
{
    let name = string_of(program);
    if contains_char(program, '\\') || contains_char(program, '/') {
        let q = Probe { dir: None, name };
        let r = ask(file_exists, &q);
        let ghost plan = lookup_plan(program@, dir_views(search_dirs@), false);
        assert(plan =~= seq![q@]);
        assert(plan[0] == q@);
        return r;
    }
    let has_ext = path_has_extension(name.as_str());
    let mut exe: Vec<char> = Vec::new();
    append_chars(&mut exe, program);
    append_str(&mut exe, ".exe");
    let exe_name = string_of(exe.as_slice());
    let ghost dirs = dir_views(search_dirs@);
    let ghost full = lookup_plan(program@, dirs, has_ext);
    assert(full == search_plan(program@, dirs, has_ext));
    let mut i: usize = 0;
    assert(dirs.take(0) =~= Seq::<Seq<char>>::empty());
    while i < search_dirs.len()
        invariant
            i <= search_dirs@.len(),
            dirs == dir_views(search_dirs@),
            name@ == program@,
            exe_name@ == program@ + ".exe"@,
            !has_path_separator(program@),
            is_plain_file_name(program@) ==> has_ext == name_has_extension(program@),
            forall|p: Probe| call_requires(*file_exists, (&p,)),
            full == search_plan(program@, dirs, has_ext),
            forall|k: int|
                0 <= k < search_plan(program@, dirs.take(i as int), has_ext).len() ==> answered(
                    *file_exists,
                    #[trigger] search_plan(program@, dirs.take(i as int), has_ext)[k],
                    false,
                ),
        decreases search_dirs@.len() - i,
    {
        let ghost before = search_plan(program@, dirs.take(i as int), has_ext);
        let ghost here = dir_probes(dirs[i as int], program@, has_ext);
        proof {
            assert(dirs.take(i + 1).drop_last() =~= dirs.take(i as int));
            assert(dirs.take(i + 1).last() == dirs[i as int]);
            assert(search_plan(program@, dirs.take(i + 1), has_ext) == before + here);
            lemma_search_plan_prefix(program@, dirs, has_ext, (i + 1) as nat);
        }
        let q = Probe { dir: Some(search_dirs[i].clone()), name: name.clone() };
        assert(q@ == here[0]);
        let hit = ask(file_exists, &q);
        if hit {
            proof {
                let all = before + here;
                assert(all[before.len() as int] == q@);
                assert forall|j: int| 0 <= j < before.len() implies answered(
                    *file_exists,
                    #[trigger] full[j],
                    false,
                ) by {
                    assert(all[j] == before[j]);
                    assert(full[j] == all[j]);
                }
                assert(full[before.len() as int] == all[before.len() as int]);
                assert(first_hit(*file_exists, full, true));
                assert((is_plain_file_name(program@) ==> has_ext == name_has_extension(program@))
                    && first_hit(*file_exists, lookup_plan(program@, dir_views(search_dirs@), has_ext), true));
            }
            return true;
        }
        if !has_ext {
            let q2 = Probe { dir: Some(search_dirs[i].clone()), name: exe_name.clone() };
            assert(q2@ == here[1]);
            let hit2 = ask(file_exists, &q2);
            if hit2 {
                proof {
                    let all = before + here;
                    assert(all[before.len() as int] == q@);
                    assert(all[before.len() as int + 1] == q2@);
                    assert forall|j: int| 0 <= j < before.len() + 1 implies answered(
                        *file_exists,
                        #[trigger] full[j],
                        false,
                    ) by {
                        assert(full[j] == all[j]);
                        if j < before.len() {
                            assert(all[j] == before[j]);
                        }
                    }
                    assert(full[before.len() as int + 1] == all[before.len() as int + 1]);
                    assert(first_hit(*file_exists, full, true));
                    assert((is_plain_file_name(program@) ==> has_ext == name_has_extension(program@))
                        && first_hit(*file_exists, lookup_plan(program@, dir_views(search_dirs@), has_ext), true));
                }
                return true;
            }
            proof {
                let all = before + here;
                assert forall|k: int| 0 <= k < all.len() implies answered(
                    *file_exists,
                    #[trigger] all[k],
                    false,
                ) by {
                    if k < before.len() {
                        assert(all[k] == before[k]);
                    } else if k == before.len() {
                        assert(all[k] == q@);
                    } else {
                        assert(all[k] == q2@);
                    }
                }
            }
        } else {
            proof {
                let all = before + here;
                assert forall|k: int| 0 <= k < all.len() implies answered(
                    *file_exists,
                    #[trigger] all[k],
                    false,
                ) by {
                    if k < before.len() {
                        assert(all[k] == before[k]);
                    } else {
                        assert(all[k] == q@);
                    }
                }
            }
        }
        i = i + 1;
    }
    assert(dirs.take(i as int) =~= dirs);
    false
}

/// The first `n` directories' places come first in the plan.
proof fn lemma_search_plan_prefix(name: Seq<char>, dirs: Seq<Seq<char>>, has_extension: bool, n: nat)
    requires
        n <= dirs.len(),
    ensures
        search_plan(name, dirs, has_extension).len() >= search_plan(name, dirs.take(n as int), has_extension).len(),
        forall|k: int|
            0 <= k < search_plan(name, dirs.take(n as int), has_extension).len() ==> search_plan(
                name,
                dirs,
                has_extension,
            )[k] == #[trigger] search_plan(name, dirs.take(n as int), has_extension)[k],
    decreases dirs.len() - n,
{
    if n < dirs.len() {
        lemma_search_plan_prefix(name, dirs.drop_last(), has_extension, n);
        assert(dirs.drop_last().take(n as int) =~= dirs.take(n as int));
    } else {
        assert(dirs.take(n as int) =~= dirs);
    }
}

/// The judgement `(status, detail)` of a registry uninstall string when its
/// program is looked up with `file_exists`: fixed where no lookup is needed;
/// otherwise the one for the answer of a lookup that asks exactly the places
/// of the program's lookup plan, in order, until one holds the file.
pub open spec fn judged_by_lookup<F: Fn(&Probe) -> bool>(
    raw: Seq<char>,
    dirs: Seq<Seq<char>>,
    file_exists: F,
    judgement: (UninstallReadiness, Seq<char>),
) -> bool {
    match program_to_look_up(raw) {
        None => judgement == assessment_of(raw, false),
        Some(program) => exists|found: bool, e: bool|
            #![trigger first_hit(file_exists, lookup_plan(program, dirs, e), found)]
            {
                &&& is_plain_file_name(program) ==> e == name_has_extension(program)
                &&& first_hit(file_exists, lookup_plan(program, dirs, e), found)
                &&& judgement == assessment_of(raw, found)
            },
    }
}

/// Judges a registry uninstall string, asking `file_exists` about the places
/// where its program may be.
pub fn assess_with_lookup<F: Fn(&Probe) -> bool>(
    raw: &str,
    search_dirs: &[String],
    file_exists: F,
) -> (r: UninstallAssessment)
    requires
        forall|p: Probe| call_requires(file_exists, (&p,)),
    ensures
        judged_by_lookup(raw@, dir_views(search_dirs@), file_exists, (r.status, r.detail@)),
{
    let v = chars_of(raw);
    match lookup_or_assessment(v.as_slice()) {
        Err(a) => {
            assert(judged_by_lookup(raw@, dir_views(search_dirs@), file_exists, (a.status, a.detail@)));
            a
        },
        Ok(program) => {
            let found = resolve_program(program.as_slice(), search_dirs, &file_exists);
            let r = looked_up_assessment(program.as_slice(), found);
            assert((r.status, r.detail@) == assessment_of(raw@, found));
            proof {
                let e = choose|e: bool|
                    (is_plain_file_name(program@) ==> e == name_has_extension(program@)) && first_hit(
                        file_exists,
                        lookup_plan(program@, dir_views(search_dirs@), e),
                        found,
                    );
                assert(program_to_look_up(raw@) == Some(program@));
                assert(first_hit(file_exists, lookup_plan(program@, dir_views(search_dirs@), e), found));
                assert(is_plain_file_name(program@) ==> e == name_has_extension(program@));
                assert((r.status, r.detail@) == assessment_of(raw@, found));
                let p = program_to_look_up(raw@)->0;
                assert(p == program@);
                assert(lookup_plan(p, dir_views(search_dirs@), e) == lookup_plan(program@, dir_views(search_dirs@), e));
                assert(first_hit(file_exists, lookup_plan(p, dir_views(search_dirs@), e), found));
                assert(judged_by_lookup(raw@, dir_views(search_dirs@), file_exists, (r.status, r.detail@)));
            }
            r
        },
    }
}

/// Asks the disk whether a place holds a file: the program as written, or
/// the name joined to its directory. The answer depends on the disk, so
/// nothing is stated of it; `assess_uninstall_command` states which places
/// it is asked about.
pub fn probe_exists(q: &Probe) -> bool {
    match &q.dir {
        None => path_exists(q.name.as_str()),
        Some(d) => {
            let path = path_join(d.as_str(), q.name.as_str());
            path_exists(path.as_str())
        },
    }
}

/// Judges a registry uninstall string, looking its program up on the disk
/// with `probe_exists`: the places asked are exactly those of the program's
/// lookup plan over `search_dirs` (the program as written when it has a
/// slash; else, in each directory in order, the name and, without an
/// extension, the name with `.exe`), in order until one holds the file.
/// Whatever the disk holds, the judgement is the one for that lookup's
/// answer, and it is fixed where no lookup is needed.
pub fn assess_uninstall_command(raw: &str, search_dirs: &[String]) -> (r: UninstallAssessment)
    ensures
        judged_by_lookup(raw@, dir_views(search_dirs@), probe_exists, (r.status, r.detail@)),
        exists|found: bool| (r.status, r.detail@) == assessment_of(raw@, found),
        program_to_look_up(raw@) is None ==> (r.status, r.detail@) == assessment_of(raw@, false),
{
    let r = assess_with_lookup(raw, search_dirs, probe_exists);
    proof {
        lemma_judged_by_lookup_some(raw@, dir_views(search_dirs@), probe_exists, (r.status, r.detail@));
    }
    r
}

/// A judgement made by a lookup is the judgement for some answer of it.
pub proof fn lemma_judged_by_lookup_some<F: Fn(&Probe) -> bool>(
    raw: Seq<char>,
    dirs: Seq<Seq<char>>,
    file_exists: F,
    judgement: (UninstallReadiness, Seq<char>),
)
    requires
        judged_by_lookup(raw, dirs, file_exists, judgement),
    ensures
        exists|found: bool| judgement == assessment_of(raw, found),
{
    match program_to_look_up(raw) {
        None => {
            assert(judgement == assessment_of(raw, false));
        },
        Some(program) => {
            let (found, e) = choose|found: bool, e: bool|
                {
                    &&& is_plain_file_name(program) ==> e == name_has_extension(program)
                    &&& first_hit(file_exists, lookup_plan(program, dirs, e), found)
                    &&& judgement == assessment_of(raw, found)
                };
            assert(judgement == assessment_of(raw, found));
        },
    }
}

proof fn lemma_replace_install(ts: Seq<Seq<char>>, i: int)
    requires
        0 <= i,
    ensures
        replace_install_from(ts, i).len() == ts.len(),
        (exists|j: int| i <= j < ts.len() && spec_is_msi_install_arg(#[trigger] ts[j])) ==> exists|
            j: int,
        |
            i <= j < ts.len() && spec_is_msi_install_arg(#[trigger] ts[j]) && replace_install_from(
                ts,
                i,
            ) == ts.update(j, uninstall_flag(ts[j])),
    decreases ts.len() - i,
{
    if i < ts.len() && !spec_is_msi_install_arg(ts[i]) {
        lemma_replace_install(ts, i + 1);
        if exists|j: int| i <= j < ts.len() && spec_is_msi_install_arg(#[trigger] ts[j]) {
            let j = choose|j: int| i <= j < ts.len() && spec_is_msi_install_arg(#[trigger] ts[j]);
            assert(i + 1 <= j);
        }
    }
}

/// The uninstall switch made from an install switch is a plain token and an
/// uninstall switch.
proof fn lemma_uninstall_flag(arg: Seq<char>)
    requires
        spec_is_msi_install_arg(arg),
        plain_token(arg),
    ensures
        plain_token(uninstall_flag(arg)),
        spec_is_msi_uninstall_arg(uninstall_flag(arg)),
{
    let f = uninstall_flag(arg);
    let l = ascii_lower(arg);
    assert(l[0] == ascii_lower_char(arg[0]));
    assert(arg[0] == '/' || arg[0] == '-');
    assert forall|k: int| 0 <= k < f.len() implies #[trigger] f[k] != '"' by {
        if k >= 2 {
            assert(f[k] == arg[k]);
        }
    }
    let fl = ascii_lower(f);
    assert(fl[0] == ascii_lower_char(f[0]));
    assert(fl[1] == ascii_lower_char('X'));
    if fl.len() > 2 {
        assert(fl[2] == ascii_lower_char(f[2]));
        assert(f[2] == arg[2]);
        assert(l[2] == ascii_lower_char(arg[2]));
    }
}

/// What `make_uninstall_command` gives is never an MSI install call.
pub proof fn lemma_uninstall_command_not_install(raw: Seq<char>)
    ensures
        !spec_looks_like_msiexec_install(uninstall_command(raw)),
        trim(uninstall_command(raw)) == uninstall_command(raw),
{
    let t = trim(raw);
    lemma_trim_idempotent(raw);
    if spec_looks_like_msiexec_install(t) {
        let ts = command_tokens(t);
        lemma_tokens_plain(t);
        lemma_replace_install(ts, 1);
        let j = choose|j: int|
            1 <= j < ts.len() && spec_is_msi_install_arg(#[trigger] ts[j]) && replace_install_from(
                ts,
                1,
            ) == ts.update(j, uninstall_flag(ts[j]));
        let rs = replace_install_from(ts, 1);
        lemma_uninstall_flag(ts[j]);
        assert forall|k: int| 0 <= k < rs.len() implies plain_token(#[trigger] rs[k]) by {
            if k != j {
                assert(rs[k] == ts[k]);
            }
        }
        lemma_tokens_of_joined(rs);
        lemma_joined_trimmed(rs);
        let c = joined_command(rs);
        assert(command_tokens(c) == rs);
        assert(is_msi_flag(rs[j], 'x'));
        assert(has_arg_from(rs, 'x'));
    }
}

/// Making the uninstall command of an uninstall command changes nothing.
pub proof fn lemma_uninstall_command_idempotent(raw: Seq<char>)
    ensures
        uninstall_command(uninstall_command(raw)) == uninstall_command(raw),
{
    lemma_uninstall_command_not_install(raw);
}

#[derive(Clone, Debug)]
pub struct UninstallTarget {
    pub app_id: String,
    pub name: String,
    pub raw_command: String,
    pub command: String,
    pub launch_mode: CommandLaunchMode,
    pub assessment: UninstallAssessment,
}

impl UninstallTarget {
    /// The uninstall job for an application: its command made runnable,
    /// the launch mode of its registry command, and its judgement.
    pub fn from_app(app: &InstalledApp, search_dirs: &[String]) -> (t: UninstallTarget)
        ensures
            t.app_id@ == app.id@,
            t.name@ == app.display_name@,
            t.raw_command@ == app.uninstall_string@,
            t.command@ == uninstall_command(app.uninstall_string@),
            t.launch_mode == spec_launch_mode(app.uninstall_string@),
            exists|found: bool|
                (t.assessment.status, t.assessment.detail@) == assessment_of(
                    app.uninstall_string@,
                    found,
                ),
            judged_by_lookup(
                app.uninstall_string@,
                dir_views(search_dirs@),
                probe_exists,
                (t.assessment.status, t.assessment.detail@),
            ),
    {
        let raw = app.uninstall_string.as_str();
        UninstallTarget {
            app_id: app.id.clone(),
            name: app.display_name.clone(),
            raw_command: app.uninstall_string.clone(),
            command: make_uninstall_command(raw),
            launch_mode: launch_mode_for_command(raw),
            assessment: assess_uninstall_command(raw, search_dirs),
        }
    }
}

#[derive(Debug)]
pub enum UninstallEvent {
    Launching { app_id: String, index: usize, total: usize, name: String },
    Launched { app_id: String, name: String, pid: u32 },
    Exited { app_id: String, name: String, code: Option<i32> },
    Failed {
        app_id: String,
        name: String,
        message: String,
        elevation_required: bool,
        target: Option<UninstallTarget>,
    },
    Done,
}

/// Announces the launch of the job at `position` (from zero) of `total`;
/// the event counts from one.
pub fn launching_event(target: &UninstallTarget, position: usize, total: usize) -> (e:
    UninstallEvent)
    requires
        position < total,
    ensures
        e matches UninstallEvent::Launching { app_id, index, total: t, name } && app_id@
            == target.app_id@ && index == position + 1 && t == total && name@ == target.name@,
{
    UninstallEvent::Launching {
        app_id: target.app_id.clone(),
        index: position + 1,
        total,
        name: target.name.clone(),
    }
}

pub open spec fn elevated_suffix() -> Seq<char> {
    " (관리자 권한)"@
}

/// Announces the launch of a job retried with administrator rights, the only
/// job of its batch.
pub fn elevated_launching_event(target: &UninstallTarget) -> (e: UninstallEvent)
    ensures
        e matches UninstallEvent::Launching { app_id, index, total, name } && app_id@
            == target.app_id@ && index == 1 && total == 1 && name@ == target.name@
            + elevated_suffix(),
{
    let mut name = chars_of(target.name.as_str());
    append_str(&mut name, " (관리자 권한)");
    UninstallEvent::Launching {
        app_id: target.app_id.clone(),
        index: 1,
        total: 1,
        name: string_of(name.as_slice()),
    }
}

pub fn launched_event(target: &UninstallTarget, pid: u32) -> (e: UninstallEvent)
    ensures
        e matches UninstallEvent::Launched { app_id, name, pid: p } && app_id@ == target.app_id@
            && name@ == target.name@ && p == pid,
{
    UninstallEvent::Launched { app_id: target.app_id.clone(), name: target.name.clone(), pid }
}

pub fn exited_event(target: UninstallTarget, code: Option<i32>) -> (e: UninstallEvent)
    ensures
        e matches UninstallEvent::Exited { app_id, name, code: c } && app_id@ == target.app_id@
            && name@ == target.name@ && c == code,
{
    UninstallEvent::Exited { app_id: target.app_id, name: target.name, code }
}

/// Reports a job that could not be started or waited for. The job is handed
/// back for a retry with administrator rights when the failure asks for them,
/// when the job was already such a retry, or when the process was started
/// and waiting for it failed.
pub fn failed_event(
    target: UninstallTarget,
    message: String,
    elevation_required: bool,
    keep_target: bool,
) -> (e: UninstallEvent)
    ensures
        e matches UninstallEvent::Failed { app_id, name, message: m, elevation_required: er, target: t }
            && app_id@ == target.app_id@ && name@ == target.name@ && m@ == message@ && er
            == elevation_required && (t is Some <==> (keep_target || elevation_required)) && (
        t matches Some(k) ==> k == target),
{
    let app_id = target.app_id.clone();
    let name = target.name.clone();
    let kept = if keep_target || elevation_required {
        Some(target)
    } else {
        None
    };
    UninstallEvent::Failed { app_id, name, message, elevation_required, target: kept }
}

/// Whether a launch failure is Windows asking for administrator rights
/// (error 740).
pub fn is_elevation_required_error(raw_os_error: Option<i32>, message: &str) -> (r: bool)
    ensures
        r == (raw_os_error == Some(740i32) || contains_seq(message@, "os error 740"@)),
{
    let code_matches = match raw_os_error {
        Some(code) => code == 740,
        None => false,
    };
    if code_matches {
        return true;
    }
    let m = chars_of(message);
    let needle = chars_of("os error 740");
    contains_chars(m.as_slice(), needle.as_slice())
}

/// A process to start: a program and its arguments.
#[derive(Clone, Debug)]
pub struct ProcessPlan {
    pub program: String,
    pub args: Vec<String>,
}

fn strings_of(parts: Vec<Vec<char>>) -> (r: Vec<String>)
    ensures
        string_seqs(r@) == char_seqs(parts@),
{
    let mut r: Vec<String> = Vec::new();
    let mut i: usize = 0;
    while i < parts.len()
        invariant
            i <= parts@.len(),
            string_seqs(r@) == char_seqs(parts@).take(i as int),
        decreases parts@.len() - i,
    {
        let s = string_of(parts[i].as_slice());
        let ghost before = r@;
        r.push(s);
        assert(string_seqs(r@) =~= string_seqs(before).push(parts@[i as int]@));
        i = i + 1;
        assert(string_seqs(r@) =~= char_seqs(parts@).take(i as int));
    }
    assert(char_seqs(parts@).take(parts@.len() as int) =~= char_seqs(parts@));
    r
}

/// How a command is started: through `cmd.exe /C` when it needs the shell,
/// otherwise as its program with its arguments.
pub fn process_plan(command_line: &str) -> (p: ProcessPlan)
    ensures
        spec_launch_mode(command_line@) == CommandLaunchMode::Shell ==> p.program@ == "cmd.exe"@
            && string_seqs(p.args@) == seq!["/C"@, command_line@],
        spec_launch_mode(command_line@) == CommandLaunchMode::Direct ==> spec_program_and_args(
            command_line@,
        ) == Some((p.program@, string_seqs(p.args@))),
{
    let v = chars_of(command_line);
    let shell = launch_mode_chars(v.as_slice()) == CommandLaunchMode::Shell;
    if !shell {
        match program_and_args_chars(v.as_slice()) {
            Some((program, args)) => {
                return ProcessPlan { program: string_of(program.as_slice()), args: strings_of(args) };
            },
            None => {},
        }
    }
    let mut args: Vec<String> = Vec::new();
    args.push("/C".to_owned());
    args.push(command_line.to_owned());
    assert(string_seqs(args@) =~= seq!["/C"@, command_line@]);
    ProcessPlan { program: "cmd.exe".to_owned(), args }
}

/// Each single quote doubled.
pub open spec fn double_single_quotes(s: Seq<char>) -> Seq<char>
    decreases s.len(),
{
    if s.len() == 0 {
        Seq::empty()
    } else {
        double_single_quotes(s.drop_last()) + if s.last() == '\'' {
            seq!['\'', '\'']
        } else {
            seq![s.last()]
        }
    }
}

pub open spec fn spec_powershell_single_quoted(s: Seq<char>) -> Seq<char> {
    seq!['\''] + double_single_quotes(s) + seq!['\'']
}

fn powershell_quoted_chars(value: &[char]) -> (r: Vec<char>)
    ensures
        r@ == spec_powershell_single_quoted(value@),
{
    let mut r: Vec<char> = Vec::new();
    r.push('\'');
    let mut i: usize = 0;
    while i < value.len()
        invariant
            i <= value@.len(),
            r@ == seq!['\''] + double_single_quotes(value@.take(i as int)),
        decreases value@.len() - i,
    {
        assert(value@.take(i + 1).drop_last() =~= value@.take(i as int));
        if value[i] == '\'' {
            r.push('\'');
            r.push('\'');
        } else {
            r.push(value[i]);
        }
        i = i + 1;
        assert(r@ =~= seq!['\''] + double_single_quotes(value@.take(i as int)));
    }
    assert(value@.take(value@.len() as int) =~= value@);
    r.push('\'');
    r
}

/// A PowerShell single-quoted string literal holding `value`.
pub fn powershell_single_quoted(value: &str) -> (r: String)
    ensures
        r@ == spec_powershell_single_quoted(value@),
{
    let v = chars_of(value);
    let q = powershell_quoted_chars(v.as_slice());
    string_of(q.as_slice())
}

pub open spec fn elevated_script(command_line: Seq<char>) -> Seq<char> {
    "$p = Start-Process -FilePath 'cmd.exe' -ArgumentList @('/C', "@
        + spec_powershell_single_quoted(command_line)
        + ") -Verb RunAs -Wait -PassThru; if ($null -ne $p.ExitCode) { exit $p.ExitCode }"@
}

/// How a command is started with administrator rights: PowerShell starts
/// `cmd.exe /C` with the command elevated, waits, and exits with its code.
pub fn elevated_process_plan(command_line: &str) -> (p: ProcessPlan)
    ensures
        p.program@ == "powershell.exe"@,
        string_seqs(p.args@) == seq![
            "-NoProfile"@,
            "-ExecutionPolicy"@,
            "Bypass"@,
            "-Command"@,
            elevated_script(command_line@),
        ],
{
    let v = chars_of(command_line);
    let mut script = chars_of("$p = Start-Process -FilePath 'cmd.exe' -ArgumentList @('/C', ");
    let quoted = powershell_quoted_chars(v.as_slice());
    append_chars(&mut script, quoted.as_slice());
    append_str(
        &mut script,
        ") -Verb RunAs -Wait -PassThru; if ($null -ne $p.ExitCode) { exit $p.ExitCode }",
    );
    let mut args: Vec<String> = Vec::new();
    args.push("-NoProfile".to_owned());
    args.push("-ExecutionPolicy".to_owned());
    args.push("Bypass".to_owned());
    args.push("-Command".to_owned());
    args.push(string_of(script.as_slice()));
    assert(string_seqs(args@) =~= seq![
        "-NoProfile"@,
        "-ExecutionPolicy"@,
        "Bypass"@,
        "-Command"@,
        elevated_script(command_line@),
    ]);
    ProcessPlan { program: "powershell.exe".to_owned(), args }
}

} // verus!
