//! The identity transformation pipeline.
//!
//! The pipeline is a strictly ordered state machine: decompile, patch the
//! manifest, rebuild, align, sign, clean up, optionally install. The machine
//! here decides everything — which command runs next, with which arguments,
//! and what each stage's outcome means — while the caller performs the
//! process launches and file accesses and feeds the outcomes back as events.

use vstd::prelude::*;
use crate::text::{
    concat2, concat3, concat4, contains_seq, contains_str, find_sub, find_sub_at, find_sub_from,
    is_alnum, is_alnum_char, lower_of, lowercase, rfind_char, rfind_in, views_match,
};
use vstd::string::StrSliceExecFns;
use vstd::string::StringExecFns;

verus! {

// ---------------------------------------------------------------------------
// Deriving the workspace from the source path
// ---------------------------------------------------------------------------

/// Index just after the last path separator, or zero.
pub open spec fn file_name_start(path: Seq<char>) -> int {
    match rfind_in(path, '/') {
        Some(i) => i + 1,
        None => 0,
    }
}

/// The file name: everything after the last path separator.
pub open spec fn file_name_of(path: Seq<char>) -> Seq<char> {
    path.skip(file_name_start(path))
}

/// The base name: the file name without its extension; a leading dot opens no
/// extension.
pub open spec fn stem_of(path: Seq<char>) -> Seq<char> {
    let name = file_name_of(path);
    match rfind_in(name, '.') {
        Some(i) => if i > 0 {
            name.take(i)
        } else {
            name
        },
        None => name,
    }
}

/// The base name, with a fixed fallback when the path yields none.
pub open spec fn effective_stem(path: Seq<char>) -> Seq<char> {
    if stem_of(path).len() == 0 {
        "apk"@
    } else {
        stem_of(path)
    }
}

/// The directory part of the path, up to and including the last separator.
pub open spec fn dir_of(path: Seq<char>) -> Seq<char> {
    match rfind_in(path, '/') {
        Some(i) => path.take(i + 1),
        None => Seq::<char>::empty(),
    }
}

/// A directory with exactly one separator appended when it lacks one.
pub open spec fn with_sep(dir: Seq<char>) -> Seq<char> {
    if dir.len() > 0 && dir.last() == '/' {
        dir
    } else {
        dir + "/"@
    }
}

/// The working directory for one run: derived from the temporary directory
/// and the source base name alone.
pub open spec fn work_dir_of(temp_dir: Seq<char>, path: Seq<char>) -> Seq<char> {
    with_sep(temp_dir) + "apk_disguise_"@ + effective_stem(path)
}

/// The sibling artifact with the given name tail.
pub open spec fn sibling_of(path: Seq<char>, tail: Seq<char>) -> Seq<char> {
    dir_of(path) + effective_stem(path) + tail
}

/// The manifest file inside the working directory.
pub open spec fn manifest_path_of(work_dir: Seq<char>) -> Seq<char> {
    work_dir + "/AndroidManifest.xml"@
}

/// The base name of `path`, with the fixed fallback, as `effective_stem`
/// describes it.
pub fn file_stem(path: &str) -> (r: String)
    ensures
        r@ == effective_stem(path@),
{
    let n = path.unicode_len();
    let start = match rfind_char(path, '/') {
        Some(i) => i + 1,
        None => 0,
    };
    let name = path.substring_char(start, n);
    let stem = match rfind_char(name, '.') {
        Some(i) => if i > 0 {
            name.substring_char(0, i)
        } else {
            name
        },
        None => name,
    };
    proof {
        assert(name@ == file_name_of(path@));
        assert(stem@ == stem_of(path@));
    }
    if stem.unicode_len() == 0 {
        String::from_str("apk")
    } else {
        String::from_str(stem)
    }
}

/// The directory part of `path`, as `dir_of` describes it.
pub fn dir_part(path: &str) -> (r: String)
    ensures
        r@ == dir_of(path@),
{
    let n = path.unicode_len();
    match rfind_char(path, '/') {
        Some(i) => String::from_str(path.substring_char(0, i + 1)),
        None => String::new(),
    }
}

// ---------------------------------------------------------------------------
// The new package identity
// ---------------------------------------------------------------------------

/// The characters of `s` that are alphanumeric, in order.
pub open spec fn filtered_alnum(s: Seq<char>) -> Seq<char>
    decreases s.len(),
{
    if s.len() == 0 {
        Seq::<char>::empty()
    } else {
        filtered_alnum(s.drop_last()) + (if is_alnum_char(s.last()) {
            seq![s.last()]
        } else {
            Seq::<char>::empty()
        })
    }
}

/// At most the first `n` elements of `s`.
pub open spec fn clipped(s: Seq<char>, n: int) -> Seq<char> {
    if s.len() > n {
        s.take(n)
    } else {
        s
    }
}

/// The view of an optional string.
pub open spec fn opt_view(o: Option<String>) -> Option<Seq<char>> {
    match o {
        Some(s) => Some(s@),
        None => None,
    }
}

/// The package-name suffix: the custom one when it is present and non-empty,
/// else the lowercased base name restricted to its alphanumeric characters
/// and clipped to twelve characters.
pub open spec fn suffix_spec(stem: Seq<char>, custom: Option<Seq<char>>) -> Seq<char> {
    match custom {
        Some(s) => if s.len() > 0 {
            s
        } else {
            clipped(filtered_alnum(lower_of(stem)), 12)
        },
        None => clipped(filtered_alnum(lower_of(stem)), 12),
    }
}

/// The new package identity: the chosen prefix, a dot, and the suffix.
pub open spec fn new_package_of(prefix: Seq<char>, suffix: Seq<char>) -> Seq<char> {
    prefix + "."@ + suffix
}

/// The package-name suffix, as `suffix_spec` describes it.
pub fn derive_suffix(stem: &str, custom: &Option<String>) -> (r: String)
    ensures
        r@ == suffix_spec(stem@, opt_view(*custom)),
{
    match custom {
        Some(s) if s.as_str().unicode_len() > 0 => {
            return s.clone();
        },
        _ => {},
    }
    let low = lowercase(stem);
    let n = low.as_str().unicode_len();
    let mut kept = String::new();
    let mut i: usize = 0;
    proof {
        assert(low@.take(0) =~= Seq::<char>::empty());
        assert(kept@ =~= filtered_alnum(low@.take(0)));
    }
    while i < n
        invariant
            n == low@.len(),
            i <= n,
            kept@ == filtered_alnum(low@.take(i as int)),
            kept@.len() <= i,
        decreases n - i,
    {
        proof {
            assert(low@.take(i + 1).drop_last() =~= low@.take(i as int));
            assert(low@.take(i + 1).last() == low@[i as int]);
        }
        let c = low.as_str().get_char(i);
        if is_alnum(c) {
            let piece = low.as_str().substring_char(i, i + 1);
            kept.append(piece);
            proof {
                assert(kept@ =~= filtered_alnum(low@.take(i + 1)));
            }
        }
        i += 1;
    }
    proof {
        assert(low@.take(n as int) =~= low@);
    }
    if kept.as_str().unicode_len() > 12 {
        String::from_str(kept.as_str().substring_char(0, 12))
    } else {
        kept
    }
}

/// The new package identity, as `new_package_of` describes it.
pub fn new_package_name(prefix: &str, suffix: &str) -> (r: String)
    ensures
        r@ == new_package_of(prefix@, suffix@),
{
    concat3(prefix, ".", suffix)
}


// ---------------------------------------------------------------------------
// Patching the manifest
// ---------------------------------------------------------------------------

/// The text that opens the package attribute.
pub open spec fn pkg_open() -> Seq<char> {
    "package=\""@
}

/// One double quote.
pub open spec fn quote_lit() -> Seq<char> {
    "\""@
}

/// When the package attribute pattern matches at `i`: the index of its
/// closing quote, which must leave at least one character inside the quotes.
pub open spec fn pkg_match_at(m: Seq<char>, i: int) -> Option<int> {
    if 0 <= i && i + pkg_open().len() <= m.len() && m.subrange(i, i + pkg_open().len() as int)
        == pkg_open() {
        match find_sub_from(m, quote_lit(), i + pkg_open().len() as int) {
            Some(j) => if j > i + pkg_open().len() {
                Some(j)
            } else {
                None
            },
            None => None,
        }
    } else {
        None
    }
}

/// The leftmost match of the package attribute pattern at `i` or later: the
/// match start and the closing quote index.
pub open spec fn first_pkg_match(m: Seq<char>, i: int) -> Option<(int, int)>
    decreases m.len() - i,
{
    if i < 0 || i >= m.len() || i + pkg_open().len() > m.len() {
        None
    } else {
        match pkg_match_at(m, i) {
            Some(j) => Some((i, j)),
            None => first_pkg_match(m, i + 1),
        }
    }
}

/// The manifest with the quoted value of its first package attribute replaced
/// by `newpkg`; nothing when no package attribute occurs.
pub open spec fn replaced_manifest(m: Seq<char>, newpkg: Seq<char>) -> Option<Seq<char>> {
    match first_pkg_match(m, 0) {
        Some((i, j)) => Some(m.take(i) + pkg_open() + newpkg + quote_lit() + m.skip(j + 1)),
        None => None,
    }
}

/// The declaration inserted when the manifest lacks an SDK version.
pub open spec fn sdk_line() -> Seq<char> {
    "    <uses-sdk android:minSdkVersion=\"19\" android:targetSdkVersion=\"27\"/>\n    "@
}

/// The manifest with an SDK declaration inserted immediately before the
/// application element, when it has no SDK declaration of its own.
pub open spec fn with_sdk(m: Seq<char>) -> Seq<char> {
    if contains_seq(m, "<uses-sdk"@) {
        m
    } else {
        match find_sub_from(m, "<application"@, 0) {
            Some(p) => m.take(p) + sdk_line() + m.skip(p),
            None => m,
        }
    }
}

/// The fully patched manifest: package attribute replaced, SDK declaration
/// guaranteed.
pub open spec fn patched_manifest(m: Seq<char>, newpkg: Seq<char>) -> Option<Seq<char>> {
    match replaced_manifest(m, newpkg) {
        Some(x) => Some(with_sdk(x)),
        None => None,
    }
}

/// Leftmost package attribute match, as `first_pkg_match` describes it.
fn find_pkg_match(m: &str) -> (r: Option<(usize, usize)>)
    ensures
        match r {
            Some((i, j)) => first_pkg_match(m@, 0) == Some((i as int, j as int)) && i <= j
                && j < m@.len(),
            None => first_pkg_match(m@, 0) is None,
        },
{
    let pat = "package=\"";
    let plen = pat.unicode_len();
    let mlen = m.unicode_len();
    proof {
        reveal_strlit("package=\"");
        reveal_strlit("\"");
        assert(pat@ == pkg_open());
        assert(plen >= 1);
        assert(quote_lit().len() == 1);
    }
    if plen > mlen {
        return None;
    }
    let mut i: usize = 0;
    while i <= mlen - plen
        invariant
            mlen == m@.len(),
            pat@ == pkg_open(),
            plen == pkg_open().len(),
            1 <= plen <= mlen,
            quote_lit().len() == 1,
            i <= mlen - plen + 1,
            first_pkg_match(m@, 0) == first_pkg_match(m@, i as int),
        decreases mlen - i,
    {
        if crate::text::starts_at(m, i, pat) {
            let q = find_sub_at(m, "\"", i + plen);
            proof {
                assert("\""@ == quote_lit());
            }
            match q {
                Some(j) => {
                    if j > i + plen {
                        proof {
                            crate::text::lemma_find_sub_bounds(m@, quote_lit(), (i + plen) as int);
                            assert(j + 1 <= mlen);
                            assert(pkg_match_at(m@, i as int) == Some(j as int));
                            assert(first_pkg_match(m@, i as int) == Some((i as int, j as int)));
                        }
                        return Some((i, j));
                    }
                },
                None => {},
            }
        }
        proof {
            assert(pkg_match_at(m@, i as int) is None);
            assert(first_pkg_match(m@, i as int) == first_pkg_match(m@, i + 1));
        }
        i += 1;
    }
    proof {
        assert(first_pkg_match(m@, i as int) is None);
    }
    None
}

/// The manifest with its package attribute replaced and an SDK declaration
/// guaranteed, as `patched_manifest` describes it; the error reports a
/// missing package attribute.
pub fn patch_manifest(manifest: &str, new_package: &str) -> (r: Result<String, String>)
    ensures
        match r {
            Ok(s) => patched_manifest(manifest@, new_package@) == Some(s@),
            Err(e) => patched_manifest(manifest@, new_package@) is None && e@
                == "manifest package attribute not found"@,
        },
{
    let mlen = manifest.unicode_len();
    let hit = find_pkg_match(manifest);
    match hit {
        None => Err(String::from_str("manifest package attribute not found")),
        Some((i, j)) => {
            let mut replaced = String::from_str(manifest.substring_char(0, i));
            replaced.append("package=\"");
            replaced.append(new_package);
            replaced.append("\"");
            replaced.append(manifest.substring_char(j + 1, mlen));
            proof {
                assert(replaced@ =~= manifest@.take(i as int) + pkg_open() + new_package@
                    + quote_lit() + manifest@.skip(j + 1));
            }
            let out = ensure_sdk(replaced);
            Ok(out)
        },
    }
}

/// `m` with an SDK declaration inserted before the application element when
/// it has none, as `with_sdk` describes it.
fn ensure_sdk(m: String) -> (r: String)
    ensures
        r@ == with_sdk(m@),
{
    if contains_str(m.as_str(), "<uses-sdk") {
        return m;
    }
    let hit = find_sub(m.as_str(), "<application");
    match hit {
        None => m,
        Some(p) => {
            let mlen = m.as_str().unicode_len();
            proof {
                crate::text::lemma_find_sub_bounds(m@, "<application"@, 0);
            }
            let mut out = String::from_str(m.as_str().substring_char(0, p));
            out.append(
                "    <uses-sdk android:minSdkVersion=\"19\" android:targetSdkVersion=\"27\"/>\n    ",
            );
            out.append(m.as_str().substring_char(p, mlen));
            proof {
                assert(out@ =~= m@.take(p as int) + sdk_line() + m@.skip(p as int));
            }
            out
        },
    }
}


// ---------------------------------------------------------------------------
// The pipeline state machine
// ---------------------------------------------------------------------------

/// The terminal record of one pipeline run.
pub struct ProcessResult {
    pub success: bool,
    pub message: String,
    pub output_path: Option<String>,
    pub step: Option<String>,
}

/// The mathematical content of a `ProcessResult`.
pub struct ProcessResultView {
    pub success: bool,
    pub message: Seq<char>,
    pub output_path: Option<Seq<char>>,
    pub step: Option<Seq<char>>,
}

impl View for ProcessResult {
    type V = ProcessResultView;

    open spec fn view(&self) -> ProcessResultView {
        ProcessResultView {
            success: self.success,
            message: self.message@,
            output_path: opt_view(self.output_path),
            step: opt_view(self.step),
        }
    }
}

/// A failed stage's record.
pub open spec fn failure_view(
    step: Seq<char>,
    message: Seq<char>,
    output_path: Option<Seq<char>>,
) -> ProcessResultView {
    ProcessResultView { success: false, message, output_path, step: Some(step) }
}

/// A successful run's record.
pub open spec fn success_view(
    step: Seq<char>,
    message: Seq<char>,
    output_path: Seq<char>,
) -> ProcessResultView {
    ProcessResultView { success: true, message, output_path: Some(output_path), step: Some(step) }
}

/// Paths of the five external tools.
pub struct ToolPaths {
    pub java: String,
    pub apktool: String,
    pub zipalign: String,
    pub apksigner: String,
    pub keystore: String,
}

/// Where the machine stands between two events.
pub enum Phase {
    Preparing,
    Decompiling,
    LoadingManifest,
    StoringManifest,
    Rebuilding,
    Aligning,
    Signing,
    CleaningUp,
    Installing,
    Done,
}

/// What the caller must do next.
pub enum Action {
    ClearWorkDir { path: String },
    Run { program: String, args: Vec<String> },
    ReadFile { path: String },
    WriteFile { path: String, contents: String },
    RemoveArtifacts { work_dir: String, rebuilt_apk: String, aligned_apk: String },
    Finish { result: ProcessResult },
    Abort { error: String },
}

/// What the caller observed.
pub enum Event {
    WorkDirCleared,
    Ran { exit_success: bool, stdout: String, stderr: String },
    LaunchFailed { error: String },
    FileLoaded { contents: String },
    FileFailed { error: String },
    FileStored,
    ArtifactsRemoved,
}

/// One pipeline run: the fixed configuration and the current phase.
pub struct PipelineRun {
    pub phase: Phase,
    pub apk_path: String,
    pub new_package: String,
    pub work_dir: String,
    pub rebuilt_apk: String,
    pub aligned_apk: String,
    pub final_apk: String,
    pub device_id: Option<String>,
    pub install_after: bool,
    pub tools: ToolPaths,
}

/// The decompile invocation's arguments.
pub open spec fn decompile_args(s: PipelineRun) -> Seq<Seq<char>> {
    seq!["-jar"@, s.tools.apktool@, "d"@, s.apk_path@, "-o"@, s.work_dir@, "-f"@, "-s"@]
}

/// The rebuild invocation's arguments.
pub open spec fn rebuild_args(s: PipelineRun) -> Seq<Seq<char>> {
    seq!["-jar"@, s.tools.apktool@, "b"@, s.work_dir@, "-o"@, s.rebuilt_apk@]
}

/// The alignment invocation's arguments.
pub open spec fn align_args(s: PipelineRun) -> Seq<Seq<char>> {
    seq!["-f"@, "-v"@, "4"@, s.rebuilt_apk@, s.aligned_apk@]
}

/// The signing invocation's arguments.
pub open spec fn sign_args(s: PipelineRun) -> Seq<Seq<char>> {
    seq![
        "-jar"@,
        s.tools.apksigner@,
        "sign"@,
        "--ks"@,
        s.tools.keystore@,
        "--ks-pass"@,
        "pass:123456"@,
        "--ks-key-alias"@,
        "my-alias"@,
        "--key-pass"@,
        "pass:123456"@,
        "--v1-signing-enabled"@,
        "true"@,
        "--v2-signing-enabled"@,
        "false"@,
        "--out"@,
        s.final_apk@,
        s.aligned_apk@,
    ]
}

/// The install invocation's arguments, for the given device.
pub open spec fn install_args(s: PipelineRun, device: Seq<char>) -> Seq<Seq<char>> {
    seq!["-s"@, device, "install"@, "-r"@, "-t"@, "-g"@, s.final_apk@]
}

/// The action is a process launch of `program` with `args`.
pub open spec fn is_run(a: Action, program: Seq<char>, args: Seq<Seq<char>>) -> bool {
    a matches Action::Run { program: p, args: v } && p@ == program && views_match(v@, args)
}

/// The action finishes the run with exactly this record.
pub open spec fn is_finish(a: Action, r: ProcessResultView) -> bool {
    a matches Action::Finish { result } && result@ == r
}

/// The action aborts the run with exactly this hard error.
pub open spec fn is_abort(a: Action, e: Seq<char>) -> bool {
    a matches Action::Abort { error } && error@ == e
}

/// The configuration is untouched: only the phase may differ.
pub open spec fn same_config(a: PipelineRun, b: PipelineRun) -> bool {
    a.apk_path@ == b.apk_path@ && a.new_package@ == b.new_package@ && a.work_dir@ == b.work_dir@
        && a.rebuilt_apk@ == b.rebuilt_apk@ && a.aligned_apk@ == b.aligned_apk@ && a.final_apk@
        == b.final_apk@ && opt_view(a.device_id) == opt_view(b.device_id) && a.install_after
        == b.install_after && a.tools.java@ == b.tools.java@ && a.tools.apktool@ == b.tools.apktool@
        && a.tools.zipalign@ == b.tools.zipalign@ && a.tools.apksigner@ == b.tools.apksigner@
        && a.tools.keystore@ == b.tools.keystore@
}

/// Which events a phase can absorb.
pub open spec fn accepts(p: Phase, ev: Event) -> bool {
    match p {
        Phase::Preparing => ev is WorkDirCleared,
        Phase::Decompiling => ev is Ran || ev is LaunchFailed,
        Phase::LoadingManifest => ev is FileLoaded || ev is FileFailed,
        Phase::StoringManifest => ev is FileStored || ev is FileFailed,
        Phase::Rebuilding => ev is Ran || ev is LaunchFailed,
        Phase::Aligning => ev is Ran || ev is LaunchFailed,
        Phase::Signing => ev is Ran || ev is LaunchFailed,
        Phase::CleaningUp => ev is ArtifactsRemoved,
        Phase::Installing => ev is Ran || ev is LaunchFailed,
        Phase::Done => false,
    }
}

/// The whole transition relation: what the new state and the action must be
/// for each phase and event. Every message, path and argument list is pinned.
pub open spec fn step_spec(pre: PipelineRun, ev: Event, post: PipelineRun, a: Action) -> bool {
    same_config(pre, post) && match pre.phase {
        Phase::Preparing => post.phase is Decompiling && is_run(
            a,
            pre.tools.java@,
            decompile_args(pre),
        ),
        Phase::Decompiling => match ev {
            Event::Ran { exit_success, stdout, stderr } => if exit_success {
                post.phase is LoadingManifest && (a matches Action::ReadFile { path } && path@
                    == manifest_path_of(pre.work_dir@))
            } else {
                post.phase is Done && is_finish(
                    a,
                    failure_view(
                        "decompile"@,
                        "decompile failed: "@ + stderr@ + " "@ + stdout@,
                        None,
                    ),
                )
            },
            Event::LaunchFailed { error } => post.phase is Done && is_abort(
                a,
                "decompile command failed to launch: "@ + error@,
            ),
            _ => false,
        },
        Phase::LoadingManifest => match ev {
            Event::FileLoaded { contents } => match patched_manifest(
                contents@,
                pre.new_package@,
            ) {
                Some(x) => post.phase is StoringManifest && (a matches Action::WriteFile {
                    path,
                    contents: c,
                } && path@ == manifest_path_of(pre.work_dir@) && c@ == x),
                None => post.phase is Done && is_abort(
                    a,
                    "manifest package attribute not found"@,
                ),
            },
            Event::FileFailed { error } => post.phase is Done && is_abort(
                a,
                "failed to read manifest: "@ + error@,
            ),
            _ => false,
        },
        Phase::StoringManifest => match ev {
            Event::FileStored => post.phase is Rebuilding && is_run(
                a,
                pre.tools.java@,
                rebuild_args(pre),
            ),
            Event::FileFailed { error } => post.phase is Done && is_abort(
                a,
                "failed to write manifest: "@ + error@,
            ),
            _ => false,
        },
        Phase::Rebuilding => match ev {
            Event::Ran { exit_success, stdout, stderr } => if exit_success {
                post.phase is Aligning && is_run(a, pre.tools.zipalign@, align_args(pre))
            } else {
                post.phase is Done && is_finish(
                    a,
                    failure_view(
                        "rebuild"@,
                        "rebuild failed: "@ + stderr@ + " "@ + stdout@,
                        None,
                    ),
                )
            },
            Event::LaunchFailed { error } => post.phase is Done && is_abort(
                a,
                "rebuild command failed to launch: "@ + error@,
            ),
            _ => false,
        },
        Phase::Aligning => match ev {
            Event::Ran { exit_success, stdout, stderr } => if exit_success {
                post.phase is Signing && is_run(a, pre.tools.java@, sign_args(pre))
            } else {
                post.phase is Done && is_finish(
                    a,
                    failure_view(
                        "zipalign"@,
                        "zipalign failed: "@ + stderr@,
                        Some(pre.rebuilt_apk@),
                    ),
                )
            },
            Event::LaunchFailed { error } => post.phase is Done && is_abort(
                a,
                "zipalign command failed to launch: "@ + error@,
            ),
            _ => false,
        },
        Phase::Signing => match ev {
            Event::Ran { exit_success, stdout, stderr } => if exit_success {
                post.phase is CleaningUp && (a matches Action::RemoveArtifacts {
                    work_dir,
                    rebuilt_apk,
                    aligned_apk,
                } && work_dir@ == pre.work_dir@ && rebuilt_apk@ == pre.rebuilt_apk@ && aligned_apk@
                    == pre.aligned_apk@)
            } else {
                post.phase is Done && is_finish(
                    a,
                    failure_view("sign"@, "sign failed: "@ + stderr@, Some(pre.aligned_apk@)),
                )
            },
            Event::LaunchFailed { error } => post.phase is Done && is_abort(
                a,
                "sign command failed to launch: "@ + error@,
            ),
            _ => false,
        },
        Phase::CleaningUp => match ev {
            Event::ArtifactsRemoved => if pre.install_after && pre.device_id is Some {
                post.phase is Installing && is_run(
                    a,
                    "adb"@,
                    install_args(pre, opt_view(pre.device_id).unwrap()),
                )
            } else {
                post.phase is Done && is_finish(
                    a,
                    success_view(
                        "complete"@,
                        "processing complete; new package: "@ + pre.new_package@,
                        pre.final_apk@,
                    ),
                )
            },
            _ => false,
        },
        Phase::Installing => match ev {
            Event::Ran { exit_success, stdout, stderr } => if exit_success && contains_seq(
                stdout@,
                "Success"@,
            ) {
                post.phase is Done && is_finish(
                    a,
                    success_view(
                        "install"@,
                        "installed successfully; new package: "@ + pre.new_package@,
                        pre.final_apk@,
                    ),
                )
            } else {
                post.phase is Done && is_finish(
                    a,
                    failure_view(
                        "install"@,
                        "install failed: "@ + stdout@,
                        Some(pre.final_apk@),
                    ),
                )
            },
            Event::LaunchFailed { error } => post.phase is Done && is_finish(
                a,
                failure_view(
                    "install"@,
                    "install command failed to launch: "@ + error@,
                    Some(pre.final_apk@),
                ),
            ),
            _ => false,
        },
        Phase::Done => false,
    }
}

/// The record an action finishes with, if it is a finish.
pub open spec fn finish_result_of(a: Action) -> Option<ProcessResultView> {
    match a {
        Action::Finish { result } => Some(result@),
        _ => None,
    }
}

/// The hard error an action aborts with, if it is an abort.
pub open spec fn abort_error_of(a: Action) -> Option<Seq<char>> {
    match a {
        Action::Abort { error } => Some(error@),
        _ => None,
    }
}

/// The machine is deterministic: over one configuration and one observed
/// event, the transition relation pins the outcome, so two runs fed the same
/// events finish with the same record — or abort with the same error — and
/// reach the terminal phase together.
pub proof fn lemma_machine_deterministic(
    pre: PipelineRun,
    ev: Event,
    post1: PipelineRun,
    a1: Action,
    post2: PipelineRun,
    a2: Action,
)
    requires
        step_spec(pre, ev, post1, a1),
        step_spec(pre, ev, post2, a2),
    ensures
        finish_result_of(a1) == finish_result_of(a2),
        abort_error_of(a1) == abort_error_of(a2),
        (post1.phase is Done) == (post2.phase is Done),
{
}

impl PipelineRun {
    /// A fresh run: the identity and every artifact path are functions of the
    /// request alone, and the first action clears the working directory, so
    /// state left by an earlier run cannot leak in.
    pub fn start(
        apk_path: String,
        new_prefix: &str,
        custom_suffix: &Option<String>,
        device_id: Option<String>,
        install_after: bool,
        tools: ToolPaths,
        temp_dir: &str,
    ) -> (r: (PipelineRun, Action))
        ensures
            r.0.phase is Preparing,
            r.0.apk_path@ == apk_path@,
            r.0.new_package@ == new_package_of(
                new_prefix@,
                suffix_spec(effective_stem(apk_path@), opt_view(*custom_suffix)),
            ),
            r.0.work_dir@ == work_dir_of(temp_dir@, apk_path@),
            r.0.rebuilt_apk@ == sibling_of(apk_path@, "_rebuilt.apk"@),
            r.0.aligned_apk@ == sibling_of(apk_path@, "_aligned.apk"@),
            r.0.final_apk@ == sibling_of(apk_path@, "_fixed.apk"@),
            opt_view(r.0.device_id) == opt_view(device_id),
            r.0.install_after == install_after,
            r.0.tools.java@ == tools.java@ && r.0.tools.apktool@ == tools.apktool@
                && r.0.tools.zipalign@ == tools.zipalign@ && r.0.tools.apksigner@
                == tools.apksigner@ && r.0.tools.keystore@ == tools.keystore@,
            r.1 matches Action::ClearWorkDir { path } && path@ == work_dir_of(
                temp_dir@,
                apk_path@,
            ),
    {
        let stem = file_stem(apk_path.as_str());
        let dir = dir_part(apk_path.as_str());
        let suffix = derive_suffix(stem.as_str(), custom_suffix);
        let new_package = new_package_name(new_prefix, suffix.as_str());
        let tlen = temp_dir.unicode_len();
        let base = if tlen > 0 && temp_dir.get_char(tlen - 1) == '/' {
            String::from_str(temp_dir)
        } else {
            concat2(temp_dir, "/")
        };
        let work_dir = concat3(base.as_str(), "apk_disguise_", stem.as_str());
        let rebuilt_apk = concat3(dir.as_str(), stem.as_str(), "_rebuilt.apk");
        let aligned_apk = concat3(dir.as_str(), stem.as_str(), "_aligned.apk");
        let final_apk = concat3(dir.as_str(), stem.as_str(), "_fixed.apk");
        let action_path = work_dir.clone();
        proof {
            assert(work_dir@ =~= work_dir_of(temp_dir@, apk_path@));
            assert(rebuilt_apk@ =~= sibling_of(apk_path@, "_rebuilt.apk"@));
            assert(aligned_apk@ =~= sibling_of(apk_path@, "_aligned.apk"@));
            assert(final_apk@ =~= sibling_of(apk_path@, "_fixed.apk"@));
        }
        let run = PipelineRun {
            phase: Phase::Preparing,
            apk_path,
            new_package,
            work_dir,
            rebuilt_apk,
            aligned_apk,
            final_apk,
            device_id,
            install_after,
            tools,
        };
        let action = Action::ClearWorkDir { path: action_path };
        (run, action)
    }

    /// One transition of the machine: absorbs what the caller observed and
    /// says what to do next, exactly as `step_spec` describes it.
    pub fn step(&mut self, ev: Event) -> (a: Action)
        requires
            accepts(old(self).phase, ev),
        ensures
            step_spec(*old(self), ev, *final(self), a),
    {
        match self.phase {
            Phase::Preparing => {
                self.phase = Phase::Decompiling;
                let args = vec![
                    String::from_str("-jar"),
                    self.tools.apktool.clone(),
                    String::from_str("d"),
                    self.apk_path.clone(),
                    String::from_str("-o"),
                    self.work_dir.clone(),
                    String::from_str("-f"),
                    String::from_str("-s"),
                ];
                Action::Run { program: self.tools.java.clone(), args }
            },
            Phase::Decompiling => match ev {
                Event::Ran { exit_success, stdout, stderr } => {
                    if exit_success {
                        self.phase = Phase::LoadingManifest;
                        let path = concat2(self.work_dir.as_str(), "/AndroidManifest.xml");
                        Action::ReadFile { path }
                    } else {
                        self.phase = Phase::Done;
                        let message = concat4(
                            "decompile failed: ",
                            stderr.as_str(),
                            " ",
                            stdout.as_str(),
                        );
                        Action::Finish {
                            result: ProcessResult {
                                success: false,
                                message,
                                output_path: None,
                                step: Some(String::from_str("decompile")),
                            },
                        }
                    }
                },
                Event::LaunchFailed { error } => {
                    self.phase = Phase::Done;
                    Action::Abort {
                        error: concat2("decompile command failed to launch: ", error.as_str()),
                    }
                },
                _ => {
                    proof {
                        assert(false);
                    }
                    Action::Abort { error: String::new() }
                },
            },
            Phase::LoadingManifest => match ev {
                Event::FileLoaded { contents } => {
                    match patch_manifest(contents.as_str(), self.new_package.as_str()) {
                        Ok(patched) => {
                            self.phase = Phase::StoringManifest;
                            let path = concat2(self.work_dir.as_str(), "/AndroidManifest.xml");
                            Action::WriteFile { path, contents: patched }
                        },
                        Err(e) => {
                            self.phase = Phase::Done;
                            Action::Abort { error: e }
                        },
                    }
                },
                Event::FileFailed { error } => {
                    self.phase = Phase::Done;
                    Action::Abort {
                        error: concat2("failed to read manifest: ", error.as_str()),
                    }
                },
                _ => {
                    proof {
                        assert(false);
                    }
                    Action::Abort { error: String::new() }
                },
            },
            Phase::StoringManifest => match ev {
                Event::FileStored => {
                    self.phase = Phase::Rebuilding;
                    let args = vec![
                        String::from_str("-jar"),
                        self.tools.apktool.clone(),
                        String::from_str("b"),
                        self.work_dir.clone(),
                        String::from_str("-o"),
                        self.rebuilt_apk.clone(),
                    ];
                    Action::Run { program: self.tools.java.clone(), args }
                },
                Event::FileFailed { error } => {
                    self.phase = Phase::Done;
                    Action::Abort {
                        error: concat2("failed to write manifest: ", error.as_str()),
                    }
                },
                _ => {
                    proof {
                        assert(false);
                    }
                    Action::Abort { error: String::new() }
                },
            },
            Phase::Rebuilding => match ev {
                Event::Ran { exit_success, stdout, stderr } => {
                    if exit_success {
                        self.phase = Phase::Aligning;
                        let args = vec![
                            String::from_str("-f"),
                            String::from_str("-v"),
                            String::from_str("4"),
                            self.rebuilt_apk.clone(),
                            self.aligned_apk.clone(),
                        ];
                        Action::Run { program: self.tools.zipalign.clone(), args }
                    } else {
                        self.phase = Phase::Done;
                        let message = concat4(
                            "rebuild failed: ",
                            stderr.as_str(),
                            " ",
                            stdout.as_str(),
                        );
                        Action::Finish {
                            result: ProcessResult {
                                success: false,
                                message,
                                output_path: None,
                                step: Some(String::from_str("rebuild")),
                            },
                        }
                    }
                },
                Event::LaunchFailed { error } => {
                    self.phase = Phase::Done;
                    Action::Abort {
                        error: concat2("rebuild command failed to launch: ", error.as_str()),
                    }
                },
                _ => {
                    proof {
                        assert(false);
                    }
                    Action::Abort { error: String::new() }
                },
            },
            Phase::Aligning => match ev {
                Event::Ran { exit_success, stdout, stderr } => {
                    if exit_success {
                        self.phase = Phase::Signing;
                        let args = vec![
                            String::from_str("-jar"),
                            self.tools.apksigner.clone(),
                            String::from_str("sign"),
                            String::from_str("--ks"),
                            self.tools.keystore.clone(),
                            String::from_str("--ks-pass"),
                            String::from_str("pass:123456"),
                            String::from_str("--ks-key-alias"),
                            String::from_str("my-alias"),
                            String::from_str("--key-pass"),
                            String::from_str("pass:123456"),
                            String::from_str("--v1-signing-enabled"),
                            String::from_str("true"),
                            String::from_str("--v2-signing-enabled"),
                            String::from_str("false"),
                            String::from_str("--out"),
                            self.final_apk.clone(),
                            self.aligned_apk.clone(),
                        ];
                        Action::Run { program: self.tools.java.clone(), args }
                    } else {
                        self.phase = Phase::Done;
                        let message = concat2("zipalign failed: ", stderr.as_str());
                        Action::Finish {
                            result: ProcessResult {
                                success: false,
                                message,
                                output_path: Some(self.rebuilt_apk.clone()),
                                step: Some(String::from_str("zipalign")),
                            },
                        }
                    }
                },
                Event::LaunchFailed { error } => {
                    self.phase = Phase::Done;
                    Action::Abort {
                        error: concat2("zipalign command failed to launch: ", error.as_str()),
                    }
                },
                _ => {
                    proof {
                        assert(false);
                    }
                    Action::Abort { error: String::new() }
                },
            },
            Phase::Signing => match ev {
                Event::Ran { exit_success, stdout, stderr } => {
                    if exit_success {
                        self.phase = Phase::CleaningUp;
                        Action::RemoveArtifacts {
                            work_dir: self.work_dir.clone(),
                            rebuilt_apk: self.rebuilt_apk.clone(),
                            aligned_apk: self.aligned_apk.clone(),
                        }
                    } else {
                        self.phase = Phase::Done;
                        let message = concat2("sign failed: ", stderr.as_str());
                        Action::Finish {
                            result: ProcessResult {
                                success: false,
                                message,
                                output_path: Some(self.aligned_apk.clone()),
                                step: Some(String::from_str("sign")),
                            },
                        }
                    }
                },
                Event::LaunchFailed { error } => {
                    self.phase = Phase::Done;
                    Action::Abort {
                        error: concat2("sign command failed to launch: ", error.as_str()),
                    }
                },
                _ => {
                    proof {
                        assert(false);
                    }
                    Action::Abort { error: String::new() }
                },
            },
            Phase::CleaningUp => {
                let device = match &self.device_id {
                    Some(d) => if self.install_after {
                        Some(d.clone())
                    } else {
                        None
                    },
                    None => None,
                };
                match device {
                    Some(d) => {
                        self.phase = Phase::Installing;
                        let args = vec![
                            String::from_str("-s"),
                            d,
                            String::from_str("install"),
                            String::from_str("-r"),
                            String::from_str("-t"),
                            String::from_str("-g"),
                            self.final_apk.clone(),
                        ];
                        Action::Run { program: String::from_str("adb"), args }
                    },
                    None => {
                        self.phase = Phase::Done;
                        let message = concat2(
                            "processing complete; new package: ",
                            self.new_package.as_str(),
                        );
                        Action::Finish {
                            result: ProcessResult {
                                success: true,
                                message,
                                output_path: Some(self.final_apk.clone()),
                                step: Some(String::from_str("complete")),
                            },
                        }
                    },
                }
            },
            Phase::Installing => match ev {
                Event::Ran { exit_success, stdout, stderr } => {
                    self.phase = Phase::Done;
                    if exit_success && contains_str(stdout.as_str(), "Success") {
                        let message = concat2(
                            "installed successfully; new package: ",
                            self.new_package.as_str(),
                        );
                        Action::Finish {
                            result: ProcessResult {
                                success: true,
                                message,
                                output_path: Some(self.final_apk.clone()),
                                step: Some(String::from_str("install")),
                            },
                        }
                    } else {
                        let message = concat2("install failed: ", stdout.as_str());
                        Action::Finish {
                            result: ProcessResult {
                                success: false,
                                message,
                                output_path: Some(self.final_apk.clone()),
                                step: Some(String::from_str("install")),
                            },
                        }
                    }
                },
                Event::LaunchFailed { error } => {
                    self.phase = Phase::Done;
                    let message = concat2("install command failed to launch: ", error.as_str());
                    Action::Finish {
                        result: ProcessResult {
                            success: false,
                            message,
                            output_path: Some(self.final_apk.clone()),
                            step: Some(String::from_str("install")),
                        },
                    }
                },
                _ => {
                    proof {
                        assert(false);
                    }
                    Action::Abort { error: String::new() }
                },
            },
            Phase::Done => {
                proof {
                    assert(false);
                }
                Action::Abort { error: String::new() }
            },
        }
    }
}

} // verus!
