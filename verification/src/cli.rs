//! The checks and tallies of the two command-line programs: the agent
//! runner and the embedding generator.

use vstd::prelude::*;

use crate::stopper::repetition::utf8_len;
use crate::text::{blank, chars_of, decimal, is_blank, seq_contains_run, str_contains, trim_text, trimmed, usize_to_decimal};
use crate::types::StreamChunk;

verus! {

/// Whether a model argument names a local folder: it starts with `/`, `./`
/// or `../`, or holds a backslash.
pub open spec fn local_path_syntax(m: Seq<char>) -> bool {
    ||| (m.len() >= 1 && m[0] == '/')
    ||| (m.len() >= 2 && m[0] == '.' && m[1] == '/')
    ||| (m.len() >= 3 && m[0] == '.' && m[1] == '.' && m[2] == '/')
    ||| m.contains('\\')
}

/// Number of slashes in a text.
pub open spec fn slash_count(m: Seq<char>) -> nat
    decreases m.len(),
{
    if m.len() == 0 {
        0
    } else {
        slash_count(m.drop_last()) + if m.last() == '/' { 1nat } else { 0nat }
    }
}

/// Whether a model argument names a local folder.
pub fn is_local_model_path(model: &str) -> (b: bool)
    ensures
        b == local_path_syntax(model@),
{
    let cs = chars_of(model);
    let n = cs.len();
    let starts = (n >= 1 && cs[0] == '/') || (n >= 2 && cs[0] == '.' && cs[1] == '/')
        || (n >= 3 && cs[0] == '.' && cs[1] == '.' && cs[2] == '/');
    if starts {
        return true;
    }
    let mut i: usize = 0;
    while i < n
        invariant
            n == cs@.len(),
            cs@ == model@,
            i <= n,
            forall|k: int| 0 <= k < i ==> #[trigger] cs@[k] != '\\',
        decreases n - i,
    {
        if cs[i] == '\\' {
            assert(model@[i as int] == '\\');
            return true;
        }
        i = i + 1;
    }
    false
}

fn count_slashes(model: &str) -> (c: usize)
    ensures
        c == slash_count(model@),
{
    let cs = chars_of(model);
    let n = cs.len();
    let mut c: usize = 0;
    let mut i: usize = 0;
    while i < n
        invariant
            n == cs@.len(),
            cs@ == model@,
            i <= n,
            c == slash_count(cs@.take(i as int)),
            c <= i,
        decreases n - i,
    {
        assert(cs@.take(i + 1).drop_last() =~= cs@.take(i as int));
        if cs[i] == '/' {
            c = c + 1;
        }
        i = i + 1;
    }
    assert(cs@.take(n as int) =~= cs@);
    c
}

/// The agent runner's settings, as its command line gives them. The
/// temperature and nucleus probability are held as `f32` bit patterns.
#[derive(Debug, Clone)]
pub struct AgentArgs {
    pub model: String,
    pub filename: Option<String>,
    pub prompt: String,
    pub limit: u32,
    pub batch_size: u32,
    pub max_queue_size: usize,
    pub request_timeout: u64,
    pub worker_threads: usize,
    pub max_sessions: usize,
    pub session_timeout: u64,
    pub temperature_bits: u32,
    pub top_p_bits: u32,
    pub debug: bool,
}

/// What the file system says of a local model folder.
#[derive(Debug, Clone, Copy)]
pub struct PathFacts {
    pub exists: bool,
    pub is_dir: bool,
}

/// Why the agent runner's settings are refused.
#[derive(Debug)]
pub enum ArgsError {
    /// A setting is wrong; the text says which and why.
    Invalid(String),
    /// The temperature is not a number in `[0, 1]`.
    TemperatureOutOfRange,
    /// The nucleus probability is not a number in `[0, 1]`.
    TopPOutOfRange,
}

/// Whether the `f32` with bit pattern `bits` is not a number in `[0, upper]`,
/// where `upper_bits` is the pattern of a positive finite `upper`. The
/// non-negative numbers are ordered as their patterns, NaN patterns lie above
/// infinity, negative numbers have the sign bit set, and negative zero
/// (`0x8000_0000`) equals zero; so NaN and negative numbers are outside.
pub open spec fn f32_bits_outside(bits: u32, upper_bits: u32) -> bool {
    !(bits <= upper_bits || bits == 0x8000_0000)
}

/// Whether an `f32` given by its bits lies outside `[0, upper]`.
pub fn f32_outside(bits: u32, upper_bits: u32) -> (b: bool)
    ensures
        b == f32_bits_outside(bits, upper_bits),
{
    !(bits <= upper_bits || bits == 0x8000_0000)
}

/// Why the agent runner's settings are refused, in the order the checks run.
pub open spec fn args_problem(a: AgentArgs, path: PathFacts) -> Option<Result<Seq<char>, bool>> {
    let m = a.model@;
    if m.len() == 0 {
        Some(Ok("Model path cannot be empty"@))
    } else if local_path_syntax(m) && !path.exists {
        Some(Ok("Local model path does not exist: "@ + m + ". Please check that the path is correct."@))
    } else if local_path_syntax(m) && !path.is_dir {
        Some(Ok("Local model path must be a directory: "@ + m + ". Please provide a folder containing model files."@))
    } else if !local_path_syntax(m) && !m.contains('/') {
        Some(Ok("HuggingFace model repo must be in format 'organization/model': "@ + m + ". Example: microsoft/DialoGPT-medium"@))
    } else if !local_path_syntax(m) && slash_count(m) != 1 {
        Some(Ok("Invalid HuggingFace repo format: "@ + m + ". Must be exactly 'organization/model'"@))
    } else if a.limit == 0 {
        Some(Ok("Token limit must be greater than 0"@))
    } else if a.limit > 8192 {
        Some(Ok("Token limit is too large: "@ + decimal(a.limit as nat) + ". Maximum recommended limit is 8192 tokens."@))
    } else if blank(a.prompt@) {
        Some(Ok("Prompt cannot be empty"@))
    } else if a.batch_size == 0 {
        Some(Ok("Batch size must be greater than 0"@))
    } else if a.batch_size > 2048 {
        Some(Ok("Batch size is too large: "@ + decimal(a.batch_size as nat) + ". Maximum recommended is 2048"@))
    } else if a.max_queue_size == 0 {
        Some(Ok("Max queue size must be greater than 0"@))
    } else if a.request_timeout == 0 {
        Some(Ok("Request timeout must be greater than 0 seconds"@))
    } else if a.worker_threads == 0 {
        Some(Ok("Worker threads must be greater than 0"@))
    } else if a.max_sessions == 0 {
        Some(Ok("Max sessions must be greater than 0"@))
    } else if a.session_timeout == 0 {
        Some(Ok("Session timeout must be greater than 0 seconds"@))
    } else if f32_bits_outside(a.temperature_bits, 0x3F80_0000) {
        Some(Err(true))
    } else if f32_bits_outside(a.top_p_bits, 0x3F80_0000) {
        Some(Err(false))
    } else {
        None
    }
}

fn message3(a: &str, b: &str, c: &str) -> (s: String)
    ensures
        s@ == a@ + b@ + c@,
{
    let mut s = a.to_string();
    s.append(b);
    s.append(c);
    s
}

/// Check the agent runner's settings; `path` says what the file system
/// knows of the model folder when the model names a local one.
pub fn validate_args(args: &AgentArgs, path: PathFacts) -> (r: Result<(), ArgsError>)
    ensures
        match args_problem(*args, path) {
            None => r is Ok,
            Some(Ok(msg)) => r matches Err(ArgsError::Invalid(m)) && m@ == msg,
            Some(Err(true)) => r matches Err(ArgsError::TemperatureOutOfRange),
            Some(Err(false)) => r matches Err(ArgsError::TopPOutOfRange),
        },
{
    let model = args.model.as_str();
    if model.unicode_len() == 0 {
        return Err(ArgsError::Invalid("Model path cannot be empty".to_string()));
    }
    if is_local_model_path(model) {
        if !path.exists {
            return Err(ArgsError::Invalid(message3(
                "Local model path does not exist: ",
                model,
                ". Please check that the path is correct.",
            )));
        }
        if !path.is_dir {
            return Err(ArgsError::Invalid(message3(
                "Local model path must be a directory: ",
                model,
                ". Please provide a folder containing model files.",
            )));
        }
    } else {
        let slashes = count_slashes(model);
        if !str_contains(model, "/") {
            proof {
                assert(!model@.contains('/')) by {
                    reveal_strlit("/");
                    if model@.contains('/') {
                        let k = choose|k: int| 0 <= k < model@.len() && model@[k] == '/';
                        assert(model@.subrange(k, k + 1) =~= "/"@);
                    }
                };
            }
            return Err(ArgsError::Invalid(message3(
                "HuggingFace model repo must be in format 'organization/model': ",
                model,
                ". Example: microsoft/DialoGPT-medium",
            )));
        }
        proof {
            reveal_strlit("/");
            let k = choose|k: int| 0 <= k <= model@.len() - 1 && #[trigger] model@.subrange(k, k + 1) == "/"@;
            assert(model@[k] == model@.subrange(k, k + 1)[0]);
            assert(model@.contains('/'));
        }
        if slashes != 1 {
            return Err(ArgsError::Invalid(message3(
                "Invalid HuggingFace repo format: ",
                model,
                ". Must be exactly 'organization/model'",
            )));
        }
    }
    if args.limit == 0 {
        return Err(ArgsError::Invalid("Token limit must be greater than 0".to_string()));
    }
    if args.limit > 8192 {
        let d = usize_to_decimal(args.limit as usize);
        return Err(ArgsError::Invalid(message3(
            "Token limit is too large: ",
            d.as_str(),
            ". Maximum recommended limit is 8192 tokens.",
        )));
    }
    if is_blank(args.prompt.as_str()) {
        return Err(ArgsError::Invalid("Prompt cannot be empty".to_string()));
    }
    if args.batch_size == 0 {
        return Err(ArgsError::Invalid("Batch size must be greater than 0".to_string()));
    }
    if args.batch_size > 2048 {
        let d = usize_to_decimal(args.batch_size as usize);
        return Err(ArgsError::Invalid(message3(
            "Batch size is too large: ",
            d.as_str(),
            ". Maximum recommended is 2048",
        )));
    }
    if args.max_queue_size == 0 {
        return Err(ArgsError::Invalid("Max queue size must be greater than 0".to_string()));
    }
    if args.request_timeout == 0 {
        return Err(ArgsError::Invalid("Request timeout must be greater than 0 seconds".to_string()));
    }
    if args.worker_threads == 0 {
        return Err(ArgsError::Invalid("Worker threads must be greater than 0".to_string()));
    }
    if args.max_sessions == 0 {
        return Err(ArgsError::Invalid("Max sessions must be greater than 0".to_string()));
    }
    if args.session_timeout == 0 {
        return Err(ArgsError::Invalid("Session timeout must be greater than 0 seconds".to_string()));
    }
    if f32_outside(args.temperature_bits, 0x3F80_0000) {
        return Err(ArgsError::TemperatureOutOfRange);
    }
    if f32_outside(args.top_p_bits, 0x3F80_0000) {
        return Err(ArgsError::TopPOutOfRange);
    }
    Ok(())
}

/// What a streamed generation has produced so far.
#[derive(Debug)]
pub struct StreamTally {
    pub text: String,
    pub token_count: u32,
}

impl StreamTally {
    /// Nothing yet.
    pub fn new() -> (t: Self)
        ensures
            t.text@.len() == 0,
            t.token_count == 0,
    {
        StreamTally { text: String::new(), token_count: 0 }
    }

    /// Take in one chunk; whether generation is complete.
    pub fn absorb(&mut self, chunk: &StreamChunk) -> (done: bool)
        requires
            old(self).token_count + chunk.token_count <= u32::MAX,
        ensures
            final(self).text@ == old(self).text@ + chunk.text@,
            final(self).token_count == old(self).token_count + chunk.token_count,
            done == chunk.is_complete,
    {
        self.text.append(chunk.text.as_str());
        self.token_count = self.token_count + chunk.token_count;
        chunk.is_complete
    }
}

/// Whether a response seems to ask for a tool: a code fence together with
/// `function_call` or `tool_call`.
pub open spec fn asks_for_tools(text: Seq<char>) -> bool {
    seq_contains_run(text, "```"@) && (seq_contains_run(text, "function_call"@) || seq_contains_run(text, "tool_call"@))
}

/// Whether a response seems to ask for a tool.
pub fn looks_like_tool_request(text: &str) -> (b: bool)
    ensures
        b == asks_for_tools(text@),
{
    str_contains(text, "```") && (str_contains(text, "function_call") || str_contains(text, "tool_call"))
}

/// Why the embedding parameters are refused, in the order the checks run.
pub open spec fn parameters_problem(batch_size: usize, max_length: Option<usize>) -> Option<Seq<char>> {
    if batch_size == 0 {
        Some("Batch size must be greater than 0\n💡 Use a reasonable batch size like 32 or 64"@)
    } else if batch_size > 1024 {
        Some("Batch size is too large: "@ + decimal(batch_size as nat) + ". Maximum recommended is 1024\n💡 Large batch sizes may cause memory issues"@)
    } else if max_length == Some(0usize) {
        Some("Max length must be greater than 0\n💡 Use a reasonable sequence length like 512"@)
    } else if max_length matches Some(m) && m > 8192 {
        Some("Max length is too large: "@ + decimal(max_length->0 as nat) + ". Maximum recommended is 8192\n💡 Very long sequences may cause memory issues and slow processing"@)
    } else if max_length matches Some(m) && m < 32 {
        Some("Max length is too small: "@ + decimal(max_length->0 as nat) + ". Minimum recommended is 32\n💡 Very short sequences may not capture meaningful semantics"@)
    } else {
        None
    }
}

/// Check the embedding batch size and maximum sequence length.
pub fn validate_parameters(batch_size: usize, max_length: Option<usize>) -> (r: Result<(), String>)
    ensures
        match parameters_problem(batch_size, max_length) {
            None => r is Ok,
            Some(msg) => r matches Err(m) && m@ == msg,
        },
{
    if batch_size == 0 {
        return Err("Batch size must be greater than 0\n💡 Use a reasonable batch size like 32 or 64".to_string());
    }
    if batch_size > 1024 {
        let d = usize_to_decimal(batch_size);
        return Err(message3(
            "Batch size is too large: ",
            d.as_str(),
            ". Maximum recommended is 1024\n💡 Large batch sizes may cause memory issues",
        ));
    }
    match max_length {
        Some(m) => {
            if m == 0 {
                return Err("Max length must be greater than 0\n💡 Use a reasonable sequence length like 512".to_string());
            }
            if m > 8192 {
                let d = usize_to_decimal(m);
                return Err(message3(
                    "Max length is too large: ",
                    d.as_str(),
                    ". Maximum recommended is 8192\n💡 Very long sequences may cause memory issues and slow processing",
                ));
            }
            if m < 32 {
                let d = usize_to_decimal(m);
                return Err(message3(
                    "Max length is too small: ",
                    d.as_str(),
                    ". Minimum recommended is 32\n💡 Very short sequences may not capture meaningful semantics",
                ));
            }
        },
        None => {},
    }
    Ok(())
}

/// Number of lines that are not blank.
pub open spec fn non_blank_count(lines: Seq<Seq<char>>) -> nat
    decreases lines.len(),
{
    if lines.len() == 0 {
        0
    } else {
        non_blank_count(lines.drop_last()) + if trimmed(lines.last()).len() > 0 { 1nat } else { 0nat }
    }
}

/// Number of lines that are not blank.
pub fn count_non_empty(lines: &Vec<String>) -> (c: usize)
    ensures
        c == non_blank_count(lines@.map_values(|l: String| l@)),
{
    let ghost views = lines@.map_values(|l: String| l@);
    let n = lines.len();
    let mut c: usize = 0;
    let mut i: usize = 0;
    while i < n
        invariant
            n == lines@.len(),
            views == lines@.map_values(|l: String| l@),
            i <= n,
            c == non_blank_count(views.take(i as int)),
            c <= i,
        decreases n - i,
    {
        assert(views.take(i + 1).drop_last() =~= views.take(i as int));
        let t = trim_text(lines[i].as_str());
        if t.as_str().unicode_len() > 0 {
            c = c + 1;
        }
        i = i + 1;
    }
    assert(views.take(n as int) =~= views);
    c
}

/// The extension of the path `path`, as `Path::extension` reads it.
pub uninterp spec fn path_extension(path: Seq<char>) -> Option<Seq<char>>;

/// The extension of a path.
///
/// Trusted: calls `std::path::Path::extension` on the path and converts the
/// extension, which comes from valid UTF-8 text, back to a `String`; the
/// result is named by `path_extension`.
#[verifier::external_body]
fn extension_of(path: &str) -> (r: Option<String>)
    ensures
        match r {
            Some(e) => path_extension(path@) == Some(e@),
            None => path_extension(path@) is None,
        },
{
    std::path::Path::new(path).extension().map(|e| e.to_string_lossy().into_owned())
}

/// Why the output path is refused: it must end in the `parquet` extension.
pub open spec fn output_path_problem(path: Seq<char>) -> Option<Seq<char>> {
    match path_extension(path) {
        Some(e) => if e == "parquet"@ {
            None
        } else {
            Some("Output file must have .parquet extension, got: "@ + path + "\n💡 Use a .parquet extension for the output file"@)
        },
        None => Some("Output file must have .parquet extension: "@ + path + "\n💡 Add .parquet extension to the output filename"@),
    }
}

/// Check the output path's extension.
pub fn validate_output_extension(path: &str) -> (r: Result<(), String>)
    ensures
        match output_path_problem(path@) {
            None => r is Ok,
            Some(msg) => r matches Err(m) && m@ == msg,
        },
{
    match extension_of(path) {
        Some(e) => {
            if crate::json::str_eq(e.as_str(), "parquet") {
                Ok(())
            } else {
                Err(message3(
                    "Output file must have .parquet extension, got: ",
                    path,
                    "\n💡 Use a .parquet extension for the output file",
                ))
            }
        },
        None => Err(message3(
            "Output file must have .parquet extension: ",
            path,
            "\n💡 Add .parquet extension to the output filename",
        )),
    }
}

/// Check that a model is named at all.
pub fn validate_model_named(model: &str) -> (r: Result<(), String>)
    ensures
        (r is Ok) <==> model@.len() > 0,
        r matches Err(m) ==> m@ == "Model path cannot be empty\n💡 Provide either a HuggingFace repo (e.g., 'microsoft/DialoGPT-medium') or local path"@,
{
    if model.unicode_len() == 0 {
        Err("Model path cannot be empty\n💡 Provide either a HuggingFace repo (e.g., 'microsoft/DialoGPT-medium') or local path".to_string())
    } else {
        Ok(())
    }
}

/// Whether an embedding model is fetched from HuggingFace: its name holds
/// a slash and names no existing path.
pub fn use_huggingface(model: &str, path_exists: bool) -> (b: bool)
    ensures
        b == (seq_contains_run(model@, "/"@) && !path_exists),
{
    str_contains(model, "/") && !path_exists
}

/// Whether an error message marks settings that were refused.
pub open spec fn names_refused_setting(msg: Seq<char>) -> bool {
    ||| seq_contains_run(msg, "does not exist"@)
    ||| seq_contains_run(msg, "Invalid HuggingFace"@)
    ||| seq_contains_run(msg, "Token limit"@)
    ||| seq_contains_run(msg, "cannot be empty"@)
    ||| seq_contains_run(msg, "HuggingFace model repo must be"@)
    ||| seq_contains_run(msg, "Invalid"@)
    ||| seq_contains_run(msg, "Batch size"@)
    ||| seq_contains_run(msg, "Max length"@)
}

/// Whether an error message marks a model that could not be loaded.
pub open spec fn names_load_failure(msg: Seq<char>) -> bool {
    ||| seq_contains_run(msg, "Failed to load model"@)
    ||| seq_contains_run(msg, "Failed to initialize agent"@)
    ||| seq_contains_run(msg, "Failed to initialize"@)
    ||| seq_contains_run(msg, "Model loading failed"@)
}

/// The exit code for a failure with message `msg`: 2 for refused settings,
/// 3 for a model that could not be loaded, 1 for anything else.
pub open spec fn exit_code_spec(msg: Seq<char>) -> i32 {
    if names_refused_setting(msg) {
        2
    } else if names_load_failure(msg) {
        3
    } else {
        1
    }
}

/// The exit code the command line ends with after a failure with message `msg`.
pub fn exit_code_for(msg: &str) -> (c: i32)
    ensures
        c == exit_code_spec(msg@),
{
    if str_contains(msg, "does not exist")
        || str_contains(msg, "Invalid HuggingFace")
        || str_contains(msg, "Token limit")
        || str_contains(msg, "cannot be empty")
        || str_contains(msg, "HuggingFace model repo must be")
        || str_contains(msg, "Invalid")
        || str_contains(msg, "Batch size")
        || str_contains(msg, "Max length")
    {
        2
    } else if str_contains(msg, "Failed to load model")
        || str_contains(msg, "Failed to initialize agent")
        || str_contains(msg, "Failed to initialize")
        || str_contains(msg, "Model loading failed")
    {
        3
    } else {
        1
    }
}

/// Why the settings of an embedding output file are refused.
#[derive(Debug, Clone, Copy, PartialEq, Eq, Structural)]
pub enum OutputSettingsError {
    /// Results are written in batches of at least one.
    InvalidBatchSize,
    /// Embeddings have at least one dimension.
    EmptyEmbedding,
}

/// Why an output file with these settings is refused, in the order the checks run.
pub open spec fn output_settings_error(embedding_dim: usize, batch_size: usize) -> Option<OutputSettingsError> {
    if batch_size == 0 {
        Some(OutputSettingsError::InvalidBatchSize)
    } else if embedding_dim == 0 {
        Some(OutputSettingsError::EmptyEmbedding)
    } else {
        None
    }
}

/// Check the settings of an embedding output file.
pub fn check_output_settings(embedding_dim: usize, batch_size: usize) -> (r: Option<OutputSettingsError>)
    ensures
        r == output_settings_error(embedding_dim, batch_size),
{
    if batch_size == 0 {
        Some(OutputSettingsError::InvalidBatchSize)
    } else if embedding_dim == 0 {
        Some(OutputSettingsError::EmptyEmbedding)
    } else {
        None
    }
}

/// The position of the first embedding whose length is not `dim`, when there is one.
pub fn first_dimension_mismatch(lengths: &Vec<usize>, dim: usize) -> (r: Option<usize>)
    ensures
        match r {
            Some(k) => k < lengths@.len() && lengths@[k as int] != dim
                && forall|j: int| 0 <= j < k ==> #[trigger] lengths@[j] == dim,
            None => forall|j: int| 0 <= j < lengths@.len() ==> #[trigger] lengths@[j] == dim,
        },
{
    let n = lengths.len();
    let mut i: usize = 0;
    while i < n
        invariant
            n == lengths@.len(),
            i <= n,
            forall|j: int| 0 <= j < i ==> #[trigger] lengths@[j] == dim,
        decreases n - i,
    {
        if lengths[i] != dim {
            return Some(i);
        }
        i = i + 1;
    }
    None
}

/// Whether a buffer holding `buffered` results must be written out, for
/// batches of `batch_size`.
pub fn buffer_is_full(buffered: usize, batch_size: usize) -> (b: bool)
    ensures
        b == (buffered >= batch_size),
{
    buffered >= batch_size
}

} // verus!
