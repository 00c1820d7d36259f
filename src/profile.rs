//! The managed block inside a shell profile: scanning a profile for earlier
//! blocks and wrapper functions, dropping them, and appending one fresh block.
use vstd::prelude::*;
use crate::paths::{OperatingSystem, uses_powershell, is_powershell_host};
use crate::text::{
    chars_eq, chars_of, contains_chars, lemma_concat_lacks, lemma_lacks_first,
    lemma_split_join, lemma_split_newline_free, has_prefix, has_sub, join_into_text, join_lines, lines_view,
    newline_free, occurs_at, split_into_lines, split_lines, starts_with_chars,
    string_of, trim_blanks, trim_chars,
};

verus! {

/// Where the scanner stands: among the user's own lines, inside a managed
/// block, or inside a wrapper function left outside any block.
#[derive(Debug, Clone, Copy, PartialEq, Eq, Structural)]
pub enum ScanState {
    Plain,
    InBlock,
    InFunction,
}

pub open spec fn start_marker() -> Seq<char> {
    "# pkit-cli-env-start"@
}

pub open spec fn end_marker() -> Seq<char> {
    "# pkit-cli-env-end"@
}

/// How a wrapper function opens, once the line is trimmed.
pub open spec fn function_opening(os: OperatingSystem) -> Seq<char> {
    if uses_powershell(os) {
        "function pkit {"@
    } else {
        "pkit() {"@
    }
}

/// The two lines that earlier versions wrote outside any block.
pub open spec fn stray_home_line(os: OperatingSystem) -> Seq<char> {
    if uses_powershell(os) {
        "$env:PKIT_HOME ="@
    } else {
        "export PKIT_HOME="@
    }
}

pub open spec fn stray_source_line(os: OperatingSystem) -> Seq<char> {
    if uses_powershell(os) {
        "if (Test-Path \"$env:PKIT_HOME\\pkit_env.ps1\")"@
    } else {
        "[[ -s \"$PKIT_HOME/pkit_env.sh\" ]] && source \"$PKIT_HOME/pkit_env.sh\""@
    }
}

/// A line the scanner keeps when it meets it among the user's own lines.
pub open spec fn plain_keeps(line: Seq<char>, os: OperatingSystem) -> bool {
    &&& !has_sub(line, start_marker())
    &&& !has_sub(line, end_marker())
    &&& !has_prefix(trim_blanks(line), function_opening(os))
    &&& !has_sub(line, stray_home_line(os))
    &&& !has_sub(line, stray_source_line(os))
}

/// One step of the scanner: the next state, and whether the line is kept.
pub open spec fn scan_step(st: ScanState, line: Seq<char>, os: OperatingSystem) -> (ScanState, bool) {
    if has_sub(line, start_marker()) {
        (ScanState::InBlock, false)
    } else {
        match st {
            ScanState::InBlock => {
                if has_sub(line, end_marker()) {
                    (ScanState::Plain, false)
                } else {
                    (ScanState::InBlock, false)
                }
            },
            ScanState::InFunction => {
                if trim_blanks(line) == "}"@ {
                    (ScanState::Plain, false)
                } else {
                    (ScanState::InFunction, false)
                }
            },
            ScanState::Plain => {
                if has_prefix(trim_blanks(line), function_opening(os)) {
                    (ScanState::InFunction, false)
                } else {
                    (ScanState::Plain, plain_keeps(line, os))
                }
            },
        }
    }
}

/// Scanning `lines` from state `st`: the final state and the lines kept.
pub open spec fn scan(st: ScanState, lines: Seq<Seq<char>>, os: OperatingSystem) -> (ScanState, Seq<Seq<char>>)
    decreases lines.len(),
{
    if lines.len() == 0 {
        (st, Seq::empty())
    } else {
        let (s1, kept) = scan(st, lines.drop_last(), os);
        let (s2, keep) = scan_step(s1, lines.last(), os);
        (s2, if keep { kept.push(lines.last()) } else { kept })
    }
}

/// The user's own lines of a profile, without managed blocks and wrapper functions.
pub open spec fn cleaned_lines(lines: Seq<Seq<char>>, os: OperatingSystem) -> Seq<Seq<char>> {
    scan(ScanState::Plain, lines, os).1
}

/// A profile's text after cleaning: the kept lines joined by newlines, with
/// none after the last.
pub open spec fn cleaned_text(text: Seq<char>, os: OperatingSystem) -> Seq<char> {
    let kept = cleaned_lines(split_lines(text), os);
    if kept.len() == 0 {
        Seq::empty()
    } else {
        join_lines(kept).drop_last()
    }
}

/// The wrapper function for POSIX shells: it runs the real executable, then
/// reloads the environment script after a subcommand that changes it.
pub open spec fn posix_function_lines() -> Seq<Seq<char>> {
    seq![
        "pkit() {"@,
        "  command pkit \"$@\""@,
        "  local env_file=\"${PKIT_HOME:-$HOME/.pkit}/pkit_env.sh\""@,
        "  if [[ -f \"$env_file\" && -r \"$env_file\" ]]; then"@,
        "    case \"$1\" in"@,
        "      install|uninstall|default|switch)"@,
        "        source \"$env_file\" && echo \"pkit environment reloaded.\""@,
        "        ;;"@,
        "    esac"@,
        "  fi"@,
        "}"@,
    ]
}

/// The wrapper function for PowerShell.
pub open spec fn powershell_function_lines() -> Seq<Seq<char>> {
    seq![
        "function pkit {"@,
        "    $exe = Get-Command pkit -CommandType Application | Select-Object -First 1"@,
        "    & $exe.Source @args"@,
        "    if (@(\"install\", \"uninstall\", \"default\", \"switch\") -contains $args[0]) {"@,
        "        if (Test-Path \"$env:PKIT_HOME\\pkit_env.ps1\") { . \"$env:PKIT_HOME\\pkit_env.ps1\" }"@,
        "    }"@,
        "}"@,
    ]
}

pub open spec fn function_lines(os: OperatingSystem) -> Seq<Seq<char>> {
    if uses_powershell(os) {
        powershell_function_lines()
    } else {
        posix_function_lines()
    }
}

/// The lines between the markers that set the storage root variable and
/// source the environment script; on PowerShell also the directory of the
/// executable goes on `PATH`.
pub open spec fn env_lines(root: Seq<char>, exe_dir: Seq<char>, os: OperatingSystem) -> Seq<Seq<char>> {
    if uses_powershell(os) {
        seq![
            "$env:PKIT_HOME = \""@ + root + "\""@,
            "$env:PATH = \"$env:PATH;"@ + exe_dir + "\""@,
            "if (Test-Path \"$env:PKIT_HOME\\pkit_env.ps1\") { . \"$env:PKIT_HOME\\pkit_env.ps1\" }"@,
        ]
    } else {
        seq![
            "export PKIT_HOME=\""@ + root + "\""@,
            "[[ -s \"$PKIT_HOME/pkit_env.sh\" ]] && source \"$PKIT_HOME/pkit_env.sh\""@,
        ]
    }
}

/// The managed block: start marker, environment lines, wrapper function, end marker.
pub open spec fn block_lines(root: Seq<char>, exe_dir: Seq<char>, os: OperatingSystem) -> Seq<Seq<char>> {
    seq![start_marker()] + env_lines(root, exe_dir, os) + function_lines(os) + seq![end_marker()]
}

/// What `setup_profile` makes of a profile's text.
pub open spec fn setup_text(text: Seq<char>, root: Seq<char>, exe_dir: Seq<char>, os: OperatingSystem) -> Seq<char> {
    join_lines(cleaned_lines(split_lines(text), os) + block_lines(root, exe_dir, os))
}

/// Scanning `a + b` is scanning `a`, then `b` from where `a` left off.
pub proof fn lemma_scan_append(st: ScanState, a: Seq<Seq<char>>, b: Seq<Seq<char>>, os: OperatingSystem)
    ensures
        scan(st, a + b, os) == (scan(scan(st, a, os).0, b, os).0, scan(st, a, os).1 + scan(
            scan(st, a, os).0,
            b,
            os,
        ).1),
    decreases b.len(),
{
    let s1 = scan(st, a, os).0;
    if b.len() == 0 {
        assert(a + b =~= a);
        assert(scan(st, a, os).1 + Seq::<Seq<char>>::empty() =~= scan(st, a, os).1);
    } else {
        lemma_scan_append(st, a, b.drop_last(), os);
        assert((a + b).drop_last() =~= a + b.drop_last());
        assert((a + b).last() == b.last());
        let k1 = scan(st, a, os).1;
        let k2 = scan(s1, b.drop_last(), os).1;
        assert((k1 + k2).push(b.last()) =~= k1 + k2.push(b.last()));
    }
}

/// Every line the scanner keeps is one it keeps among the user's own lines,
/// and holds no newline when the input held none.
pub proof fn lemma_scan_kept(st: ScanState, lines: Seq<Seq<char>>, os: OperatingSystem)
    ensures
        forall|i: int| 0 <= i < scan(st, lines, os).1.len() ==> plain_keeps(#[trigger] scan(st, lines, os).1[i], os),
        newline_free(lines) ==> newline_free(scan(st, lines, os).1),
    decreases lines.len(),
{
    if lines.len() > 0 {
        let init = lines.drop_last();
        lemma_scan_kept(st, init, os);
        if newline_free(lines) {
            assert(newline_free(init)) by {
                assert forall|i: int| 0 <= i < init.len() implies !(#[trigger] init[i]).contains('\n') by {
                    assert(init[i] == lines[i]);
                }
            }
            assert(!lines[lines.len() - 1].contains('\n'));
        }
        let (s1, kept) = scan(st, init, os);
        let (s2, keep) = scan_step(s1, lines.last(), os);
        if keep {
            assert forall|i: int| 0 <= i < kept.push(lines.last()).len() implies plain_keeps(#[trigger] kept.push(lines.last())[i], os) by {
                if i < kept.len() {
                    assert(kept.push(lines.last())[i] == kept[i]);
                }
            }
            if newline_free(lines) {
                assert forall|i: int| 0 <= i < kept.push(lines.last()).len() implies !(#[trigger] kept.push(lines.last())[i]).contains('\n') by {
                    if i < kept.len() {
                        assert(kept.push(lines.last())[i] == kept[i]);
                    }
                }
            }
        }
    }
}

/// Lines that the scanner keeps among the user's own lines pass through it unchanged.
pub proof fn lemma_scan_keeps_plain(lines: Seq<Seq<char>>, os: OperatingSystem)
    requires
        forall|i: int| 0 <= i < lines.len() ==> plain_keeps(#[trigger] lines[i], os),
    ensures
        scan(ScanState::Plain, lines, os) == (ScanState::Plain, lines),
    decreases lines.len(),
{
    if lines.len() > 0 {
        let init = lines.drop_last();
        assert forall|i: int| 0 <= i < init.len() implies plain_keeps(#[trigger] init[i], os) by {
            assert(init[i] == lines[i]);
        }
        lemma_scan_keeps_plain(init, os);
        assert(plain_keeps(lines[lines.len() - 1], os));
        assert(init.push(lines.last()) =~= lines);
    }
}

/// A well-formed block: it opens with the start marker, closes with the end
/// marker, and no line between them holds the end marker.
pub open spec fn block_shape(b: Seq<Seq<char>>) -> bool {
    &&& b.len() >= 2
    &&& has_sub(b[0], start_marker())
    &&& has_sub(b[b.len() - 1], end_marker())
    &&& !has_sub(b[b.len() - 1], start_marker())
    &&& forall|i: int| 0 < i < b.len() - 1 ==> !has_sub(#[trigger] b[i], end_marker())
}

proof fn lemma_block_prefix(st: ScanState, b: Seq<Seq<char>>, k: int, os: OperatingSystem)
    requires
        block_shape(b),
        1 <= k <= b.len() - 1,
    ensures
        scan(st, b.subrange(0, k), os) == (ScanState::InBlock, Seq::<Seq<char>>::empty()),
    decreases k,
{
    let pre = b.subrange(0, k);
    if k == 1 {
        assert(pre.drop_last() =~= Seq::<Seq<char>>::empty());
        assert(scan(st, pre.drop_last(), os) == (st, Seq::<Seq<char>>::empty()));
        assert(pre.last() == b[0]);
    } else {
        lemma_block_prefix(st, b, k - 1, os);
        assert(pre.drop_last() =~= b.subrange(0, k - 1));
        assert(pre.last() == b[k - 1]);
        assert(!has_sub(b[k - 1], end_marker()));
    }
}

/// A well-formed block is dropped whole, and the scanner ends among plain lines.
pub proof fn lemma_block_dropped(st: ScanState, b: Seq<Seq<char>>, os: OperatingSystem)
    requires
        block_shape(b),
    ensures
        scan(st, b, os) == (ScanState::Plain, Seq::<Seq<char>>::empty()),
{
    lemma_block_prefix(st, b, b.len() - 1, os);
    assert(b.drop_last() =~= b.subrange(0, b.len() - 1));
}

/// Neither a `#` nor a newline: text that cannot close a block or break a line.
pub open spec fn block_safe(s: Seq<char>) -> bool {
    !s.contains('#') && !s.contains('\n')
}

/// No line of `lines` holds a `#` or a newline.
pub open spec fn lines_block_safe(lines: Seq<Seq<char>>) -> bool {
    forall|i: int| 0 <= i < lines.len() ==> block_safe(#[trigger] lines[i])
}

proof fn lemma_function_lines_safe(os: OperatingSystem)
    ensures
        lines_block_safe(function_lines(os)),
{
    reveal_strlit("pkit() {");
    reveal_strlit("  command pkit \"$@\"");
    reveal_strlit("  local env_file=\"${PKIT_HOME:-$HOME/.pkit}/pkit_env.sh\"");
    reveal_strlit("  if [[ -f \"$env_file\" && -r \"$env_file\" ]]; then");
    reveal_strlit("    case \"$1\" in");
    reveal_strlit("      install|uninstall|default|switch)");
    reveal_strlit("        source \"$env_file\" && echo \"pkit environment reloaded.\"");
    reveal_strlit("        ;;");
    reveal_strlit("    esac");
    reveal_strlit("  fi");
    reveal_strlit("}");
    reveal_strlit("function pkit {");
    reveal_strlit("    $exe = Get-Command pkit -CommandType Application | Select-Object -First 1");
    reveal_strlit("    & $exe.Source @args");
    reveal_strlit("    if (@(\"install\", \"uninstall\", \"default\", \"switch\") -contains $args[0]) {");
    reveal_strlit("        if (Test-Path \"$env:PKIT_HOME\\pkit_env.ps1\") { . \"$env:PKIT_HOME\\pkit_env.ps1\" }");
    reveal_strlit("    }");
    reveal_strlit("}");
    if uses_powershell(os) {
        assert(!powershell_function_lines()[0].contains('#') && !powershell_function_lines()[0].contains('\n'));
        assert(!powershell_function_lines()[1].contains('#') && !powershell_function_lines()[1].contains('\n'));
        assert(!powershell_function_lines()[2].contains('#') && !powershell_function_lines()[2].contains('\n'));
        assert(!powershell_function_lines()[3].contains('#') && !powershell_function_lines()[3].contains('\n'));
        assert(!powershell_function_lines()[4].contains('#') && !powershell_function_lines()[4].contains('\n'));
        assert(!powershell_function_lines()[5].contains('#') && !powershell_function_lines()[5].contains('\n'));
        assert(!powershell_function_lines()[6].contains('#') && !powershell_function_lines()[6].contains('\n'));
        assert(lines_block_safe(powershell_function_lines()));
    } else {
        assert(!posix_function_lines()[0].contains('#') && !posix_function_lines()[0].contains('\n'));
        assert(!posix_function_lines()[1].contains('#') && !posix_function_lines()[1].contains('\n'));
        assert(!posix_function_lines()[2].contains('#') && !posix_function_lines()[2].contains('\n'));
        assert(!posix_function_lines()[3].contains('#') && !posix_function_lines()[3].contains('\n'));
        assert(!posix_function_lines()[4].contains('#') && !posix_function_lines()[4].contains('\n'));
        assert(!posix_function_lines()[5].contains('#') && !posix_function_lines()[5].contains('\n'));
        assert(!posix_function_lines()[6].contains('#') && !posix_function_lines()[6].contains('\n'));
        assert(!posix_function_lines()[7].contains('#') && !posix_function_lines()[7].contains('\n'));
        assert(!posix_function_lines()[8].contains('#') && !posix_function_lines()[8].contains('\n'));
        assert(!posix_function_lines()[9].contains('#') && !posix_function_lines()[9].contains('\n'));
        assert(!posix_function_lines()[10].contains('#') && !posix_function_lines()[10].contains('\n'));
        assert(lines_block_safe(posix_function_lines()));
    }
}

/// A line that cannot close a block early or break into two lines.
pub open spec fn line_ok(s: Seq<char>) -> bool {
    !s.contains('\n') && !has_sub(s, end_marker())
}

proof fn lemma_safe_is_ok(s: Seq<char>)
    requires
        block_safe(s),
    ensures
        line_ok(s),
{
    reveal_strlit("# pkit-cli-env-end");
    assert(end_marker()[0] == '#');
    lemma_lacks_first(s, end_marker());
}

/// A text `a + x + "\""` holds the end marker only where `x` does, when `a`
/// has no `#`.
proof fn lemma_quoted_ok(a: Seq<char>, x: Seq<char>)
    requires
        block_safe(a),
        line_ok(x),
    ensures
        line_ok(a + x + "\""@),
{
    reveal_strlit("\"");
    reveal_strlit("# pkit-cli-env-end");
    let b = "\""@;
    let t = a + x + b;
    let e = end_marker();
    assert(!b.contains('\n'));
    lemma_concat_lacks(a, x, '\n');
    lemma_concat_lacks(a + x, b, '\n');
    if has_sub(t, e) {
        let k = choose|k: int| occurs_at(t, e, k);
        assert(t.subrange(k, k + e.len())[0] == t[k]);
        assert(t[k] == '#');
        if k < a.len() {
            assert(t[k] == a[k]);
        }
        let end: int = (a.len() + x.len()) as int;
        if k + e.len() > end {
            let j = end - k;
            assert(t.subrange(k, k + e.len())[j] == t[end]);
            assert(t[end] == b[0]);
            assert(e[j] == '"');
            assert(e.contains('"'));
            assert(!e.contains('"'));
        }
        let k2 = k - a.len();
        assert(x.subrange(k2, k2 + e.len()) =~= t.subrange(k, k + e.len()));
        assert(occurs_at(x, e, k2));
    }
}

/// Every line of `lines` is `line_ok`.
pub open spec fn lines_ok(lines: Seq<Seq<char>>) -> bool {
    forall|i: int| 0 <= i < lines.len() ==> line_ok(#[trigger] lines[i])
}

proof fn lemma_env_lines_ok(root: Seq<char>, exe_dir: Seq<char>, os: OperatingSystem)
    requires
        line_ok(root),
        line_ok(exe_dir),
    ensures
        lines_ok(env_lines(root, exe_dir, os)),
{
    reveal_strlit("export PKIT_HOME=\"");
    reveal_strlit("[[ -s \"$PKIT_HOME/pkit_env.sh\" ]] && source \"$PKIT_HOME/pkit_env.sh\"");
    reveal_strlit("$env:PKIT_HOME = \"");
    reveal_strlit("$env:PATH = \"$env:PATH;");
    reveal_strlit("if (Test-Path \"$env:PKIT_HOME\\pkit_env.ps1\") { . \"$env:PKIT_HOME\\pkit_env.ps1\" }");
    assert(block_safe("export PKIT_HOME=\""@));
    assert(block_safe("[[ -s \"$PKIT_HOME/pkit_env.sh\" ]] && source \"$PKIT_HOME/pkit_env.sh\""@));
    assert(block_safe("$env:PKIT_HOME = \""@));
    assert(block_safe("$env:PATH = \"$env:PATH;"@));
    assert(block_safe("if (Test-Path \"$env:PKIT_HOME\\pkit_env.ps1\") { . \"$env:PKIT_HOME\\pkit_env.ps1\" }"@));
    lemma_safe_is_ok("[[ -s \"$PKIT_HOME/pkit_env.sh\" ]] && source \"$PKIT_HOME/pkit_env.sh\""@);
    lemma_safe_is_ok("if (Test-Path \"$env:PKIT_HOME\\pkit_env.ps1\") { . \"$env:PKIT_HOME\\pkit_env.ps1\" }"@);
    lemma_quoted_ok("export PKIT_HOME=\""@, root);
    lemma_quoted_ok("$env:PKIT_HOME = \""@, root);
    lemma_quoted_ok("$env:PATH = \"$env:PATH;"@, exe_dir);
    let e = env_lines(root, exe_dir, os);
    if uses_powershell(os) {
        assert(line_ok(e[0]) && line_ok(e[1]) && line_ok(e[2]));
    } else {
        assert(line_ok(e[0]) && line_ok(e[1]));
    }
}

/// The managed block is well formed and holds no newline inside a line, when
/// neither the storage root nor the executable's directory holds a newline
/// or the end marker.
pub proof fn lemma_block_well_formed(root: Seq<char>, exe_dir: Seq<char>, os: OperatingSystem)
    requires
        line_ok(root),
        line_ok(exe_dir),
    ensures
        block_shape(block_lines(root, exe_dir, os)),
        newline_free(block_lines(root, exe_dir, os)),
{
    reveal_strlit("# pkit-cli-env-start");
    reveal_strlit("# pkit-cli-env-end");
    lemma_function_lines_safe(os);
    lemma_env_lines_ok(root, exe_dir, os);
    let env = env_lines(root, exe_dir, os);
    let f = function_lines(os);
    let b = block_lines(root, exe_dir, os);
    let n = b.len();
    assert(n == 2 + env.len() + f.len());
    assert(b[0] == start_marker());
    assert(b[n - 1] == end_marker());
    assert(start_marker().subrange(0, 0 + start_marker().len() as int) =~= start_marker());
    assert(occurs_at(b[0], start_marker(), 0));
    assert(end_marker().subrange(0, 0 + end_marker().len() as int) =~= end_marker());
    assert(occurs_at(b[n - 1], end_marker(), 0));
    assert(!has_sub(b[n - 1], start_marker()));
    assert(!start_marker().contains('\n')) by {
        assert forall|j: int| 0 <= j < start_marker().len() implies start_marker()[j] != '\n' by {}
    }
    assert(!end_marker().contains('\n')) by {
        assert forall|j: int| 0 <= j < end_marker().len() implies end_marker()[j] != '\n' by {}
    }
    assert forall|i: int| 0 < i < n - 1 implies !has_sub(#[trigger] b[i], end_marker()) by {
        if i <= env.len() {
            assert(b[i] == env[i - 1]);
            assert(line_ok(env[i - 1]));
        } else {
            assert(b[i] == f[i - 1 - env.len()]);
            assert(block_safe(f[i - 1 - env.len()]));
            lemma_safe_is_ok(f[i - 1 - env.len()]);
        }
    }
    assert forall|i: int| 0 <= i < n implies !(#[trigger] b[i]).contains('\n') by {
        if i == 0 || i == n - 1 {
        } else if i <= env.len() {
            assert(b[i] == env[i - 1]);
            assert(line_ok(env[i - 1]));
        } else {
            assert(b[i] == f[i - 1 - env.len()]);
            assert(block_safe(f[i - 1 - env.len()]));
        }
    }
}

/// Setting up a profile twice gives the same text as setting it up once.
pub proof fn lemma_setup_idempotent(text: Seq<char>, root: Seq<char>, exe_dir: Seq<char>, os: OperatingSystem)
    requires
        line_ok(root),
        line_ok(exe_dir),
    ensures
        setup_text(setup_text(text, root, exe_dir, os), root, exe_dir, os) == setup_text(text, root, exe_dir, os),
{
    let b = block_lines(root, exe_dir, os);
    let lines = split_lines(text);
    let kept = cleaned_lines(lines, os);
    lemma_block_well_formed(root, exe_dir, os);
    lemma_split_newline_free(text);
    lemma_scan_kept(ScanState::Plain, lines, os);
    assert(newline_free(kept + b)) by {
        assert forall|i: int| 0 <= i < (kept + b).len() implies !(#[trigger] (kept + b)[i]).contains('\n') by {
            if i < kept.len() {
                assert((kept + b)[i] == kept[i]);
            } else {
                assert((kept + b)[i] == b[i - kept.len()]);
            }
        }
    }
    lemma_split_join(kept + b);
    lemma_scan_keeps_plain(kept, os);
    lemma_scan_append(ScanState::Plain, kept, b, os);
    lemma_block_dropped(ScanState::Plain, b, os);
    assert(kept + Seq::<Seq<char>>::empty() =~= kept);
}

/// The patterns the scanner looks for, as characters.
struct ScanPatterns {
    start: Vec<char>,
    end: Vec<char>,
    opening: Vec<char>,
    home: Vec<char>,
    source: Vec<char>,
    close: Vec<char>,
}

impl ScanPatterns {
    spec fn matches_os(&self, os: OperatingSystem) -> bool {
        &&& self.start@ == start_marker()
        &&& self.end@ == end_marker()
        &&& self.opening@ == function_opening(os)
        &&& self.home@ == stray_home_line(os)
        &&& self.source@ == stray_source_line(os)
        &&& self.close@ == "}"@
    }

    fn new(os: OperatingSystem) -> (r: ScanPatterns)
        ensures
            r.matches_os(os),
    {
        let ps = is_powershell_host(os);
        ScanPatterns {
            start: chars_of("# pkit-cli-env-start"),
            end: chars_of("# pkit-cli-env-end"),
            opening: if ps { chars_of("function pkit {") } else { chars_of("pkit() {") },
            home: if ps { chars_of("$env:PKIT_HOME =") } else { chars_of("export PKIT_HOME=") },
            source: if ps {
                chars_of("if (Test-Path \"$env:PKIT_HOME\\pkit_env.ps1\")")
            } else {
                chars_of("[[ -s \"$PKIT_HOME/pkit_env.sh\" ]] && source \"$PKIT_HOME/pkit_env.sh\"")
            },
            close: chars_of("}"),
        }
    }

    fn step(&self, st: ScanState, line: &Vec<char>, os: OperatingSystem) -> (r: (ScanState, bool))
        requires
            self.matches_os(os),
        ensures
            r == scan_step(st, line@, os),
    {
        if contains_chars(line, &self.start) {
            return (ScanState::InBlock, false);
        }
        let has_end = contains_chars(line, &self.end);
        let trimmed = trim_chars(line);
        match st {
            ScanState::InBlock => {
                if has_end {
                    (ScanState::Plain, false)
                } else {
                    (ScanState::InBlock, false)
                }
            },
            ScanState::InFunction => {
                if chars_eq(&trimmed, &self.close) {
                    (ScanState::Plain, false)
                } else {
                    (ScanState::InFunction, false)
                }
            },
            ScanState::Plain => {
                let opens = starts_with_chars(&trimmed, &self.opening);
                if opens {
                    (ScanState::InFunction, false)
                } else {
                    let keep = !has_end && !contains_chars(line, &self.home)
                        && !contains_chars(line, &self.source);
                    (ScanState::Plain, keep)
                }
            },
        }
    }
}

/// The lines of `lines` that survive cleaning.
fn clean_lines(lines: &Vec<Vec<char>>, os: OperatingSystem) -> (r: Vec<Vec<char>>)
    ensures
        lines_view(r@) == cleaned_lines(lines_view(lines@), os),
{
    let pats = ScanPatterns::new(os);
    let ghost all = lines_view(lines@);
    let mut st = ScanState::Plain;
    let mut kept: Vec<Vec<char>> = Vec::new();
    let mut i: usize = 0;
    while i < lines.len()
        invariant
            pats.matches_os(os),
            i <= lines@.len(),
            all == lines_view(lines@),
            scan(ScanState::Plain, all.subrange(0, i as int), os) == (st, lines_view(kept@)),
        decreases lines@.len() - i,
    {
        assert(all.subrange(0, i + 1).drop_last() =~= all.subrange(0, i as int));
        assert(all.subrange(0, i + 1).last() == lines@[i as int]@);
        let (next, keep) = pats.step(st, &lines[i], os);
        if keep {
            let line = slice_all(&lines[i]);
            let ghost before = kept@;
            kept.push(line);
            assert(lines_view(kept@) =~= lines_view(before).push(lines@[i as int]@));
        }
        st = next;
        i += 1;
    }
    assert(all.subrange(0, lines@.len() as int) =~= all);
    kept
}

fn slice_all(v: &Vec<char>) -> (r: Vec<char>)
    ensures
        r@ == v@,
{
    let r = crate::text::slice_chars(v, 0, v.len());
    assert(v@.subrange(0, v@.len() as int) =~= v@);
    r
}

fn joined(a: &str, mid: &str, b: &str) -> (r: Vec<char>)
    ensures
        r@ == a@ + mid@ + b@,
{
    let mut r = chars_of(a);
    let mut m = chars_of(mid);
    let mut e = chars_of(b);
    r.append(&mut m);
    r.append(&mut e);
    r
}

/// The wrapper function's lines.
fn function_block(os: OperatingSystem) -> (r: Vec<Vec<char>>)
    ensures
        lines_view(r@) == function_lines(os),
{
    let mut r: Vec<Vec<char>> = Vec::new();
    if is_powershell_host(os) {
        r.push(chars_of("function pkit {"));
        r.push(chars_of("    $exe = Get-Command pkit -CommandType Application | Select-Object -First 1"));
        r.push(chars_of("    & $exe.Source @args"));
        r.push(chars_of("    if (@(\"install\", \"uninstall\", \"default\", \"switch\") -contains $args[0]) {"));
        r.push(chars_of("        if (Test-Path \"$env:PKIT_HOME\\pkit_env.ps1\") { . \"$env:PKIT_HOME\\pkit_env.ps1\" }"));
        r.push(chars_of("    }"));
        r.push(chars_of("}"));
    } else {
        r.push(chars_of("pkit() {"));
        r.push(chars_of("  command pkit \"$@\""));
        r.push(chars_of("  local env_file=\"${PKIT_HOME:-$HOME/.pkit}/pkit_env.sh\""));
        r.push(chars_of("  if [[ -f \"$env_file\" && -r \"$env_file\" ]]; then"));
        r.push(chars_of("    case \"$1\" in"));
        r.push(chars_of("      install|uninstall|default|switch)"));
        r.push(chars_of("        source \"$env_file\" && echo \"pkit environment reloaded.\""));
        r.push(chars_of("        ;;"));
        r.push(chars_of("    esac"));
        r.push(chars_of("  fi"));
        r.push(chars_of("}"));
    }
    assert(lines_view(r@) =~= function_lines(os));
    r
}

/// The managed block's lines.
fn block(root: &str, exe_dir: &str, os: OperatingSystem) -> (r: Vec<Vec<char>>)
    ensures
        lines_view(r@) == block_lines(root@, exe_dir@, os),
{
    let mut r: Vec<Vec<char>> = Vec::new();
    r.push(chars_of("# pkit-cli-env-start"));
    if is_powershell_host(os) {
        r.push(joined("$env:PKIT_HOME = \"", root, "\""));
        r.push(joined("$env:PATH = \"$env:PATH;", exe_dir, "\""));
        r.push(chars_of("if (Test-Path \"$env:PKIT_HOME\\pkit_env.ps1\") { . \"$env:PKIT_HOME\\pkit_env.ps1\" }"));
    } else {
        r.push(joined("export PKIT_HOME=\"", root, "\""));
        r.push(chars_of("[[ -s \"$PKIT_HOME/pkit_env.sh\" ]] && source \"$PKIT_HOME/pkit_env.sh\""));
    }
    let mut f = function_block(os);
    r.append(&mut f);
    r.push(chars_of("# pkit-cli-env-end"));
    assert(lines_view(r@) =~= block_lines(root@, exe_dir@, os));
    r
}

/// The profile text without managed blocks, wrapper functions and the
/// stray lines that earlier versions wrote; the kept lines are joined by
/// newlines, with none after the last.
pub fn clean_shell_pkit_entries(content: &str, os: OperatingSystem) -> (r: String)
    ensures
        r@ == cleaned_text(content@, os),
{
    let chars = chars_of(content);
    let lines = split_into_lines(&chars);
    let kept = clean_lines(&lines, os);
    let mut text = join_into_text(&kept);
    if kept.len() > 0 {
        proof {
            let kv = lines_view(kept@);
            assert(kv.len() > 0);
            assert(join_lines(kv) == join_lines(kv.drop_last()) + kv.last().push('\n'));
        }
        text.pop();
    }
    string_of(&text)
}

/// The profile text with every earlier managed block and wrapper function
/// removed and one fresh block appended, each line ended by a newline.
/// Setting up the result again changes nothing when the storage root and the
/// executable's directory hold neither a newline nor the end marker
/// (`lemma_setup_idempotent`).
pub fn setup_profile(content: &str, root: &str, exe_dir: &str, os: OperatingSystem) -> (r: String)
    ensures
        r@ == setup_text(content@, root@, exe_dir@, os),
{
    let chars = chars_of(content);
    let lines = split_into_lines(&chars);
    let mut kept = clean_lines(&lines, os);
    let mut b = block(root, exe_dir, os);
    let ghost kv = lines_view(kept@);
    let ghost bv = lines_view(b@);
    kept.append(&mut b);
    assert(lines_view(kept@) =~= kv + bv);
    let text = join_into_text(&kept);
    string_of(&text)
}

/// The managed block on its own, as text.
pub fn generate_env_setup_lines(pkit_home_str: &str, exe_dir: &str, os: OperatingSystem) -> (r: String)
    ensures
        r@ == join_lines(block_lines(pkit_home_str@, exe_dir@, os)),
{
    let b = block(pkit_home_str, exe_dir, os);
    let text = join_into_text(&b);
    string_of(&text)
}

/// The wrapper function on its own, as text.
pub fn generate_shell_function(os: OperatingSystem) -> (r: String)
    ensures
        r@ == join_lines(function_lines(os)),
{
    let f = function_block(os);
    let text = join_into_text(&f);
    string_of(&text)
}

} // verus!
