//! Model selection and shell command planning for the inference binary.
//!
//! A job request is resolved against the workspace: the inference binary
//! path is chosen by platform, the language model file by explicit name or
//! by the selected default, and a retrieval-augmented request additionally
//! needs an embedding model. The outcome is a single shell invocation
//! string with the prompt escaped to stay one argument.

use vstd::prelude::*;

use crate::text::{escape_quotes, i64_to_string, spec_dec_signed, spec_escape_quotes};

verus! {

broadcast use vstd::string::group_string_axioms;

/// The platforms the constructor distinguishes.
#[derive(Clone, Copy, Debug, PartialEq, Eq, Structural)]
pub enum Platform {
    MacOs,
    Windows,
    Linux,
}

/// Compares two strings character by character.
pub fn str_eq(a: &str, b: &str) -> (r: bool)
    ensures
        r == (a@ == b@),
{
    let na = a.unicode_len();
    let nb = b.unicode_len();
    if na != nb {
        return false;
    }
    let mut j: usize = 0;
    while j < na
        invariant
            0 <= j <= na == a@.len(),
            na == nb == b@.len(),
            forall|q: int| 0 <= q < j ==> a@[q] == b@[q],
        decreases na - j,
    {
        if a.get_char(j) != b.get_char(j) {
            return false;
        }
        j = j + 1;
    }
    proof {
        assert(a@ =~= b@);
    }
    true
}

/// `s` ends with `suffix`.
pub open spec fn spec_ends_with(s: Seq<char>, suffix: Seq<char>) -> bool {
    s.len() >= suffix.len() && s.subrange(s.len() - suffix.len(), s.len() as int) == suffix
}

/// `s` starts with `prefix`.
pub open spec fn spec_starts_with(s: Seq<char>, prefix: Seq<char>) -> bool {
    s.len() >= prefix.len() && s.subrange(0, prefix.len() as int) == prefix
}

/// Whether `s` ends with `suffix`.
pub fn str_ends_with(s: &str, suffix: &str) -> (r: bool)
    ensures
        r == spec_ends_with(s@, suffix@),
{
    let n = s.unicode_len();
    let m = suffix.unicode_len();
    if m > n {
        return false;
    }
    let tail = s.substring_char(n - m, n);
    str_eq(tail, suffix)
}

/// Whether `s` starts with `prefix`.
pub fn str_starts_with(s: &str, prefix: &str) -> (r: bool)
    ensures
        r == spec_starts_with(s@, prefix@),
{
    let n = s.unicode_len();
    let m = prefix.unicode_len();
    if m > n {
        return false;
    }
    let head = s.substring_char(0, m);
    str_eq(head, prefix)
}

/// A path with separators turned around for the platform: on Windows every
/// `/` becomes `\`, elsewhere the path is unchanged.
pub open spec fn spec_normalize_path(s: Seq<char>, windows: bool) -> Seq<char> {
    if windows {
        s.map_values(
            |c: char|
                if c == '/' {
                    '\\'
                } else {
                    c
                },
        )
    } else {
        s
    }
}

/// Turns the separators of `path` around for the target platform.
pub fn normalize_path(path: &str, windows: bool) -> (r: String)
    ensures
        r@ == spec_normalize_path(path@, windows),
{
    if !windows {
        return path.to_owned();
    }
    proof {
        reveal_strlit("\\");
    }
    let n = path.unicode_len();
    let mut r = String::new();
    let mut seg_start: usize = 0;
    let mut i: usize = 0;
    while i < n
        invariant
            0 <= seg_start <= i <= n == path@.len(),
            forall|k: int| seg_start <= k < i ==> path@[k] != '/',
            r@ + path@.subrange(seg_start as int, i as int) == spec_normalize_path(
                path@.subrange(0, i as int),
                true,
            ),
        decreases n - i,
    {
        let c = path.get_char(i);
        if c == '/' {
            let seg = path.substring_char(seg_start, i);
            r.append(seg);
            r.append("\\");
            proof {
                reveal_strlit("\\");
                assert(("\\")@ =~= seq!['\\']);
                assert(path@.subrange(0, i + 1) =~= path@.subrange(0, i as int).push(
                    path@[i as int],
                ));
                assert(spec_normalize_path(path@.subrange(0, i + 1), true)
                    =~= spec_normalize_path(path@.subrange(0, i as int), true).push('\\'));
                assert(spec_normalize_path(path@.subrange(seg_start as int, i as int), true)
                    =~= path@.subrange(seg_start as int, i as int));
            }
            seg_start = i + 1;
            i = i + 1;
            proof {
                assert(r@ + path@.subrange(i as int, i as int) =~= r@);
                assert(spec_normalize_path(path@.subrange(0, i as int), true)
                    =~= spec_normalize_path(path@.subrange(0, i - 1), true).push('\\'));
            }
        } else {
            i = i + 1;
            proof {
                assert(path@.subrange(seg_start as int, i as int) =~= path@.subrange(
                    seg_start as int,
                    i - 1,
                ).push(path@[i - 1]));
                assert(spec_normalize_path(path@.subrange(0, i as int), true)
                    =~= spec_normalize_path(path@.subrange(0, i - 1), true).push(path@[i - 1]));
            }
        }
    }
    let seg = path.substring_char(seg_start, n);
    r.append(seg);
    proof {
        assert(spec_normalize_path(path@.subrange(seg_start as int, n as int), true)
            =~= path@.subrange(seg_start as int, n as int));
        assert(path@.subrange(0, n as int) =~= path@);
    }
    r
}

/// The file extension of language and embedding model files.
pub open spec fn gguf_suffix() -> Seq<char> {
    ".gguf"@
}

/// The filenames ending in `.gguf`, in their original order.
pub open spec fn spec_gguf_files(files: Seq<Seq<char>>) -> Seq<Seq<char>> {
    files.filter(|f: Seq<char>| spec_ends_with(f, gguf_suffix()))
}

/// Keeps the filenames that name a model file (extension `.gguf`).
pub fn filter_gguf(files: &Vec<String>) -> (r: Vec<String>)
    ensures
        r@.map_values(|f: String| f@) == spec_gguf_files(files@.map_values(|f: String| f@)),
{
    let mut r: Vec<String> = Vec::new();
    let mut i: usize = 0;
    proof {
        reveal(Seq::filter);
        assert(files@.subrange(0, 0).map_values(|f: String| f@) =~= Seq::<Seq<char>>::empty());
        assert(r@.map_values(|f: String| f@) =~= spec_gguf_files(
            files@.subrange(0, 0).map_values(|f: String| f@),
        ));
    }
    while i < files.len()
        invariant
            0 <= i <= files@.len(),
            r@.map_values(|f: String| f@) == spec_gguf_files(
                files@.subrange(0, i as int).map_values(|f: String| f@),
            ),
        decreases files@.len() - i,
    {
        let keep = str_ends_with(files[i].as_str(), ".gguf");
        let ghost prev = files@.subrange(0, i as int).map_values(|f: String| f@);
        let ghost next = files@.subrange(0, i + 1).map_values(|f: String| f@);
        proof {
            reveal(Seq::filter);
            assert(next =~= prev.push(files@[i as int]@));
            assert(next.drop_last() =~= prev);
        }
        if keep {
            r.push(files[i].clone());
            proof {
                assert(r@.map_values(|f: String| f@) =~= spec_gguf_files(next));
            }
        } else {
            proof {
                assert(r@.map_values(|f: String| f@) =~= spec_gguf_files(next));
            }
        }
        i = i + 1;
    }
    proof {
        assert(files@.subrange(0, files@.len() as int) =~= files@);
    }
    r
}

/// The first filename ending in `.gguf`, if any.
pub open spec fn spec_first_gguf(files: Seq<Seq<char>>) -> Option<Seq<char>>
    decreases files.len(),
{
    if files.len() == 0 {
        None
    } else if spec_ends_with(files[0], gguf_suffix()) {
        Some(files[0])
    } else {
        spec_first_gguf(files.drop_first())
    }
}

/// Finds the first model file (`.gguf`) in a directory listing.
pub fn find_first_gguf_file(files: &Vec<String>) -> (r: Option<String>)
    ensures
        match r {
            Some(f) => spec_first_gguf(files@.map_values(|f: String| f@)) == Some(f@),
            None => spec_first_gguf(files@.map_values(|f: String| f@)) is None,
        },
{
    let mut i: usize = 0;
    proof {
        assert(files@.map_values(|f: String| f@).subrange(0, files@.len() as int) =~= files@.map_values(
            |f: String| f@,
        ));
    }
    while i < files.len()
        invariant
            0 <= i <= files@.len(),
            spec_first_gguf(files@.map_values(|f: String| f@)) == spec_first_gguf(
                files@.map_values(|f: String| f@).subrange(i as int, files@.len() as int),
            ),
        decreases files@.len() - i,
    {
        let ghost all = files@.map_values(|f: String| f@);
        proof {
            assert(all.subrange(i as int, all.len() as int)[0] == all[i as int]);
            assert(all.subrange(i as int, all.len() as int).drop_first() =~= all.subrange(
                i + 1,
                all.len() as int,
            ));
        }
        if str_ends_with(files[i].as_str(), ".gguf") {
            return Some(files[i].clone());
        }
        i = i + 1;
    }
    proof {
        let all = files@.map_values(|f: String| f@);
        assert(all.subrange(i as int, all.len() as int) =~= Seq::<Seq<char>>::empty());
    }
    None
}

/// View of an optional string.
pub open spec fn opt_view(o: Option<String>) -> Option<Seq<char>> {
    match o {
        Some(s) => Some(s@),
        None => None,
    }
}

/// The selected language and embedding model names, an owned snapshot of
/// what used to be process-wide state.
pub struct ModelState {
    /// Selected language model filename.
    pub model_name: Option<String>,
    /// Selected embedding model filename.
    pub em_model_name: Option<String>,
}

impl ModelState {
    /// No models selected.
    pub fn new() -> (r: Self)
        ensures
            r.model_name is None,
            r.em_model_name is None,
    {
        ModelState { model_name: None, em_model_name: None }
    }

    /// Defaults from directory listings: the first model file of each
    /// directory becomes the selection, if one exists.
    pub fn init_from_listings(model_files: &Vec<String>, em_model_files: &Vec<String>) -> (r: Self)
        ensures
            opt_view(r.model_name) == spec_first_gguf(model_files@.map_values(|f: String| f@)),
            opt_view(r.em_model_name) == spec_first_gguf(
                em_model_files@.map_values(|f: String| f@),
            ),
    {
        ModelState {
            model_name: find_first_gguf_file(model_files),
            em_model_name: find_first_gguf_file(em_model_files),
        }
    }

    /// Selects the language model.
    pub fn set_model(&mut self, name: String)
        ensures
            opt_view(final(self).model_name) == Some(name@),
            final(self).em_model_name == old(self).em_model_name,
    {
        self.model_name = Some(name);
    }

    /// Selects the embedding model.
    pub fn set_em_model(&mut self, name: String)
        ensures
            opt_view(final(self).em_model_name) == Some(name@),
            final(self).model_name == old(self).model_name,
    {
        self.em_model_name = Some(name);
    }

    /// The selected language model name.
    pub fn get_selected_model(&self) -> (r: Option<String>)
        ensures
            opt_view(r) == opt_view(self.model_name),
    {
        match &self.model_name {
            Some(n) => Some(n.clone()),
            None => None,
        }
    }

    /// The selected embedding model name.
    pub fn get_selected_em_model(&self) -> (r: Option<String>)
        ensures
            opt_view(r) == opt_view(self.em_model_name),
    {
        match &self.em_model_name {
            Some(n) => Some(n.clone()),
            None => None,
        }
    }
}

/// Some filename in the listing equals `name`.
pub open spec fn listing_contains(files: Seq<Seq<char>>, name: Seq<char>) -> bool {
    exists|i: int| 0 <= i < files.len() && files[i] == name
}

/// Whether the listing holds a file of exactly this name.
pub fn listing_has(files: &Vec<String>, name: &str) -> (r: bool)
    ensures
        r == listing_contains(files@.map_values(|f: String| f@), name@),
{
    let mut i: usize = 0;
    while i < files.len()
        invariant
            0 <= i <= files@.len(),
            forall|q: int| 0 <= q < i ==> (#[trigger] files@[q])@ != name@,
        decreases files@.len() - i,
    {
        if str_eq(files[i].as_str(), name) {
            proof {
                assert(files@.map_values(|f: String| f@)[i as int] == name@);
            }
            return true;
        }
        i = i + 1;
    }
    proof {
        let mapped = files@.map_values(|f: String| f@);
        assert forall|q: int| 0 <= q < mapped.len() implies #[trigger] mapped[q] != name@ by {
            assert(mapped[q] == files@[q]@);
        }
    }
    false
}

/// The path of the selected language model inside the workspace.
pub open spec fn spec_model_path(workspace: Seq<char>, name: Seq<char>) -> Seq<char> {
    workspace + "/model/"@ + name
}

/// The path of the selected embedding model inside the workspace.
pub open spec fn spec_em_model_path(workspace: Seq<char>, name: Seq<char>) -> Seq<char> {
    workspace + "/em_model/"@ + name
}

/// Resolves the selected language model to a path, against the model
/// directory listing: fails when nothing is selected or the selected file
/// is absent.
pub fn find_gguf_model(workspace_path: &str, state: &ModelState, model_files: &Vec<String>) -> (r:
    Result<String, String>)
    ensures
        ({
            let files = model_files@.map_values(|f: String| f@);
            match r {
                Ok(p) => opt_view(state.model_name) matches Some(name) && listing_contains(
                    files,
                    name,
                ) && p@ == spec_model_path(workspace_path@, name),
                Err(e) => match opt_view(state.model_name) {
                    None => e@ == "No model name selected"@,
                    Some(name) => !listing_contains(files, name) && e@ == "Model "@ + name
                        + " not found in model directory"@,
                },
            }
        }),
{
    match &state.model_name {
        None => Err("No model name selected".to_owned()),
        Some(name) => {
            if listing_has(model_files, name.as_str()) {
                let mut p = workspace_path.to_owned();
                p.append("/model/");
                p.append(name.as_str());
                Ok(p)
            } else {
                let mut e = "Model ".to_owned();
                e.append(name.as_str());
                e.append(" not found in model directory");
                Err(e)
            }
        },
    }
}

/// Resolves the selected embedding model to a path, against the embedding
/// model directory listing.
pub fn find_gguf_emmodel(workspace_path: &str, state: &ModelState, em_model_files: &Vec<String>)
    -> (r: Result<String, String>)
    ensures
        ({
            let files = em_model_files@.map_values(|f: String| f@);
            match r {
                Ok(p) => opt_view(state.em_model_name) matches Some(name) && listing_contains(
                    files,
                    name,
                ) && p@ == spec_em_model_path(workspace_path@, name),
                Err(e) => match opt_view(state.em_model_name) {
                    None => e@ == "No embedding model name selected"@,
                    Some(name) => !listing_contains(files, name) && e@ == "Embedding model "@
                        + name + " not found in em_model directory"@,
                },
            }
        }),
{
    match &state.em_model_name {
        None => Err("No embedding model name selected".to_owned()),
        Some(name) => {
            if listing_has(em_model_files, name.as_str()) {
                let mut p = workspace_path.to_owned();
                p.append("/em_model/");
                p.append(name.as_str());
                Ok(p)
            } else {
                let mut e = "Embedding model ".to_owned();
                e.append(name.as_str());
                e.append(" not found in em_model directory");
                Err(e)
            }
        },
    }
}


/// One inference request from a caller. The temperature is carried as the
/// decimal text it will be interpolated with.
pub struct JobRequest {
    /// The raw prompt; a retrieval-augmented request starts with `RAG-`.
    pub prompt: String,
    /// Explicit model filename; overrides the selected model, unchecked.
    pub model_name: Option<String>,
    /// Sampling temperature, as decimal text.
    pub temperature: Option<String>,
    /// Token budget for the reply.
    pub max_tokens: Option<i64>,
    /// Further `--key value` arguments, in order.
    pub additional_args: Vec<(String, String)>,
}

/// A planned shell invocation: `program flag "command"`.
pub struct ShellCommand {
    /// The shell to start.
    pub program: String,
    /// Its single-command flag.
    pub flag: String,
    /// The full invocation line handed to the shell.
    pub command: String,
}

/// Path of the inference binary inside the workspace, by platform.
pub open spec fn spec_exe_path(workspace: Seq<char>, platform: Platform) -> Seq<char> {
    match platform {
        Platform::Windows => workspace + "\\setup\\llama-cli.exe"@,
        Platform::MacOs => workspace + "/setup/llama-cli"@,
        Platform::Linux => workspace + "/setup/llama-cli"@,
    }
}

/// Start of the invocation line: the binary (found on the path on macOS,
/// inside the workspace elsewhere) with colour output on.
pub open spec fn spec_command_base(workspace: Seq<char>, platform: Platform) -> Seq<char> {
    match platform {
        Platform::MacOs => "llama-cli --color"@,
        _ => spec_exe_path(workspace, platform) + " --color"@,
    }
}

/// The `--temp` argument, when a temperature was requested.
pub open spec fn spec_temp_arg(t: Option<Seq<char>>) -> Seq<char> {
    match t {
        Some(x) => " --temp "@ + x,
        None => Seq::empty(),
    }
}

/// The `-n` argument, when a token budget was requested.
pub open spec fn spec_tokens_arg(n: Option<i64>) -> Seq<char> {
    match n {
        Some(x) => " -n "@ + spec_dec_signed(x as int),
        None => Seq::empty(),
    }
}

/// The further `--key value` arguments, in order.
pub open spec fn spec_extra_args(args: Seq<(Seq<char>, Seq<char>)>) -> Seq<char>
    decreases args.len(),
{
    if args.len() == 0 {
        Seq::empty()
    } else {
        spec_extra_args(args.drop_last()) + " --"@ + args.last().0 + " "@ + args.last().1
    }
}

/// The prompt part of the invocation line. A retrieval-augmented prompt is
/// already complete; a plain prompt gets the sentinel request and the
/// response marker appended.
pub open spec fn spec_prompt_part(prompt: Seq<char>, rag: bool) -> Seq<char> {
    if rag {
        " -ngl 99 -p \" "@ + spec_escape_quotes(prompt) + "\""@
    } else {
        " -ngl 99 -p \" "@ + spec_escape_quotes(prompt)
            + " PS: (End your response with [done]) \nYour response: \""@
    }
}

/// The whole invocation line.
pub open spec fn spec_command_str(
    workspace: Seq<char>,
    platform: Platform,
    model_path: Seq<char>,
    temperature: Option<Seq<char>>,
    max_tokens: Option<i64>,
    extra: Seq<(Seq<char>, Seq<char>)>,
    prompt: Seq<char>,
    rag: bool,
) -> Seq<char> {
    spec_command_base(workspace, platform) + " -m \""@ + model_path + "\""@ + spec_temp_arg(
        temperature,
    ) + spec_tokens_arg(max_tokens) + spec_extra_args(extra) + spec_prompt_part(prompt, rag)
}

/// Builds the shell invocation for a resolved job: `cmd /C` on Windows,
/// `bash -c` elsewhere, around the exact invocation line.
#[verifier::rlimit(100)]
pub fn build_command(
    platform: Platform,
    workspace: &str,
    model_path: &str,
    req: &JobRequest,
    prompt: &str,
    rag: bool,
) -> (r: ShellCommand)
    ensures
        platform == Platform::Windows ==> r.program@ == "cmd"@ && r.flag@ == "/C"@,
        platform != Platform::Windows ==> r.program@ == "bash"@ && r.flag@ == "-c"@,
        r.command@ == spec_command_str(
            workspace@,
            platform,
            model_path@,
            opt_view(req.temperature),
            req.max_tokens,
            req.additional_args@.map_values(|p: (String, String)| (p.0@, p.1@)),
            prompt@,
            rag,
        ),
{
    let mut command = String::new();
    match platform {
        Platform::MacOs => {
            command.append("llama-cli --color");
        },
        Platform::Windows => {
            command.append(workspace);
            command.append("\\setup\\llama-cli.exe");
            command.append(" --color");
        },
        Platform::Linux => {
            command.append(workspace);
            command.append("/setup/llama-cli");
            command.append(" --color");
        },
    }
    command.append(" -m \"");
    command.append(model_path);
    command.append("\"");
    match &req.temperature {
        Some(t) => {
            command.append(" --temp ");
            command.append(t.as_str());
        },
        None => {},
    }
    match &req.max_tokens {
        Some(n) => {
            command.append(" -n ");
            let digits = i64_to_string(*n);
            command.append(digits.as_str());
        },
        None => {},
    }
    let ghost extra = req.additional_args@.map_values(|p: (String, String)| (p.0@, p.1@));
    let mut i: usize = 0;
    proof {
        assert(spec_extra_args(extra.subrange(0, 0)) =~= Seq::<char>::empty());
        assert(command@ + spec_extra_args(extra.subrange(0, 0)) =~= command@);
    }
    let ghost before_extra = command@;
    while i < req.additional_args.len()
        invariant
            0 <= i <= req.additional_args@.len(),
            extra == req.additional_args@.map_values(|p: (String, String)| (p.0@, p.1@)),
            command@ == before_extra + spec_extra_args(extra.subrange(0, i as int)),
        decreases req.additional_args@.len() - i,
    {
        proof {
            assert(extra.subrange(0, i + 1).drop_last() =~= extra.subrange(0, i as int));
            assert(extra.subrange(0, i + 1).last() == extra[i as int]);
        }
        command.append(" --");
        command.append(req.additional_args[i].0.as_str());
        command.append(" ");
        command.append(req.additional_args[i].1.as_str());
        i = i + 1;
    }
    proof {
        assert(extra.subrange(0, extra.len() as int) =~= extra);
    }
    command.append(" -ngl 99 -p \" ");
    let escaped = escape_quotes(prompt);
    command.append(escaped.as_str());
    if rag {
        command.append("\"");
    } else {
        command.append(" PS: (End your response with [done]) \nYour response: \"");
    }
    let (program, flag) = match platform {
        Platform::Windows => ("cmd", "/C"),
        _ => ("bash", "-c"),
    };
    ShellCommand { program: program.to_owned(), flag: flag.to_owned(), command }
}

/// Why a job could not be planned: the text frame sent to the caller at
/// once, and the shorter message the job status carries.
pub struct ConstructError {
    /// Full notice for the caller.
    pub notice: String,
    /// Short description for the job status.
    pub message: String,
}

/// What a planned job will run: a plain prompt, or a retrieval-augmented
/// one whose context must first be gathered.
#[derive(Debug)]
pub enum JobDecision {
    /// Run the prompt as given.
    Plain {
        /// Resolved language model path.
        model_path: String,
    },
    /// Gather context for `query`, then run the augmented prompt.
    Rag {
        /// Resolved language model path.
        model_path: String,
        /// The prompt with the retrieval prefix removed.
        query: String,
    },
}

/// The reserved prefix that requests retrieval augmentation.
pub open spec fn rag_prefix() -> Seq<char> {
    "RAG-"@
}

/// The model path a request resolves to: an explicit name is joined
/// unchecked, otherwise the selected model must be present in the listing.
pub open spec fn spec_resolved_model(
    req_model: Option<Seq<char>>,
    workspace: Seq<char>,
    selected: Option<Seq<char>>,
    files: Seq<Seq<char>>,
) -> Option<Seq<char>> {
    match req_model {
        Some(name) => Some(spec_model_path(workspace, name)),
        None => match selected {
            Some(name) => if listing_contains(files, name) {
                Some(spec_model_path(workspace, name))
            } else {
                None
            },
            None => None,
        },
    }
}

/// The selected embedding model exists in the embedding model directory.
pub open spec fn spec_em_available(selected: Option<Seq<char>>, files: Seq<Seq<char>>) -> bool {
    match selected {
        Some(name) => listing_contains(files, name),
        None => false,
    }
}

/// Decides what a request will run, against the workspace listings: fails
/// fast, without spawning anything, when no language model can be resolved
/// or a retrieval-augmented request finds no embedding model.
pub fn plan_job(
    req: &JobRequest,
    workspace: &str,
    state: &ModelState,
    model_files: &Vec<String>,
    em_model_files: &Vec<String>,
) -> (r: Result<JobDecision, ConstructError>)
    ensures
        ({
            let resolved = spec_resolved_model(
                opt_view(req.model_name),
                workspace@,
                opt_view(state.model_name),
                model_files@.map_values(|f: String| f@),
            );
            let rag = spec_starts_with(req.prompt@, rag_prefix());
            let em_ok = spec_em_available(
                opt_view(state.em_model_name),
                em_model_files@.map_values(|f: String| f@),
            );
            &&& (r is Ok <==> resolved is Some && (rag ==> em_ok))
            &&& match r {
                Ok(d) => match d {
                    JobDecision::Plain { model_path } => !rag && Some(model_path@) == resolved,
                    JobDecision::Rag { model_path, query } => rag && em_ok && Some(model_path@)
                        == resolved && query@ == req.prompt@.subrange(4, req.prompt@.len() as int),
                },
                Err(e) => if resolved is None {
                    e.message@ == "No language model found"@ && e.notice@
                        == "No language model found. Please provide a language model."@
                } else {
                    rag && !em_ok && e.message@ == "No embedding model found"@ && e.notice@
                        == "Cannot perform RAG: No embedding model found. Please download an embedding model first."@
                },
            }
        }),
{
    proof {
        reveal_strlit("RAG-");
    }
    let model_path: String = match &req.model_name {
        Some(name) => {
            let mut p = workspace.to_owned();
            p.append("/model/");
            p.append(name.as_str());
            p
        },
        None => {
            match find_gguf_model(workspace, state, model_files) {
                Ok(p) => p,
                Err(_) => {
                    return Err(
                        ConstructError {
                            notice:
                                "No language model found. Please provide a language model.".to_owned(),
                            message: "No language model found".to_owned(),
                        },
                    );
                },
            }
        },
    };
    if str_starts_with(req.prompt.as_str(), "RAG-") {
        match find_gguf_emmodel(workspace, state, em_model_files) {
            Ok(_) => {
                let n = req.prompt.as_str().unicode_len();
                let query = req.prompt.as_str().substring_char(4, n);
                Ok(JobDecision::Rag { model_path, query: query.to_owned() })
            },
            Err(_) => {
                Err(
                    ConstructError {
                        notice:
                            "Cannot perform RAG: No embedding model found. Please download an embedding model first.".to_owned(),
                        message: "No embedding model found".to_owned(),
                    },
                )
            },
        }
    } else {
        Ok(JobDecision::Plain { model_path })
    }
}

} // verus!
