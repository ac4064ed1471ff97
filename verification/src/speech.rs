//! Preparing text for the speech engine of the operating system: what may
//! be spoken, in which voice, and by which command.

use vstd::prelude::*;
use vstd::std_specs::iter::IteratorSpec;
use crate::text::{chars_of, same_text, texts, trim, trimmed};

verus! {

/// The operating systems whose speech engines are known.
#[derive(Clone, Copy, Debug, PartialEq, Eq, Structural)]
pub enum SpeechPlatform {
    Windows,
    MacOs,
    Linux,
}

/// Text made safe to speak, with the language to speak it in.
#[derive(Debug)]
pub struct Utterance {
    pub text: String,
    pub lang: String,
}

/// The language used when the caller names none.
pub open spec fn default_language() -> Seq<char> {
    "en-US"@
}

/// Text with every double quote escaped by a backslash and every backtick
/// removed, so that it cannot break out of a quoted argument.
pub open spec fn sanitized(text: Seq<char>) -> Seq<char>
    decreases text.len(),
{
    if text.len() == 0 {
        Seq::empty()
    } else {
        let head = sanitized(text.drop_last());
        if text.last() == '"' {
            head.push('\\').push('"')
        } else if text.last() == '`' {
            head
        } else {
            head.push(text.last())
        }
    }
}

/// Text with every single quote doubled, as a single-quoted PowerShell
/// string wants it.
pub open spec fn single_quoted(text: Seq<char>) -> Seq<char>
    decreases text.len(),
{
    if text.len() == 0 {
        Seq::empty()
    } else {
        let head = single_quoted(text.drop_last());
        if text.last() == '\'' {
            head.push('\'').push('\'')
        } else {
            head.push(text.last())
        }
    }
}

/// Text that holds nothing but white space.
pub open spec fn blank(text: Seq<char>) -> bool {
    trimmed(text).len() == 0
}

/// Why nothing was spoken.
#[derive(Debug)]
pub enum SpeechError {
    /// There was nothing to say.
    EmptyText,
    /// The engine could not be started.
    Launch { message: String },
    /// The engine ran and reported failure.
    Engine { message: String },
}

/// One invocation of a speech engine.
#[derive(Debug)]
pub struct SpeechCommand {
    pub program: String,
    pub args: Vec<String>,
}

/// How one invocation ended.
#[derive(Debug)]
pub enum AttemptOutcome {
    /// The engine ran and reported success.
    Succeeded,
    /// The engine ran and reported failure, with what it wrote to its error
    /// stream.
    Rejected { stderr: String },
    /// The engine could not be started.
    NotLaunched { reason: String },
}

/// What follows an invocation.
#[derive(Debug)]
pub enum SpeechStep {
    /// The text was spoken.
    Finished,
    /// Run this command instead.
    Retry(SpeechCommand),
    /// Give up with this error.
    Failed(SpeechError),
}

/// Turkish, by either of its codes.
pub open spec fn is_turkish(lang: Seq<char>) -> bool {
    lang == "tr-TR"@ || lang == "tr"@
}

/// American English, by either of its codes.
pub open spec fn is_american(lang: Seq<char>) -> bool {
    lang == "en-US"@ || lang == "en"@
}

/// British English.
pub open spec fn is_british(lang: Seq<char>) -> bool {
    lang == "en-GB"@
}

/// The name by which a platform's engine knows the voice for a language:
/// a culture on Windows, a voice on macOS, a language on Linux. Unknown
/// languages are spoken in American English.
pub open spec fn voice_text(platform: SpeechPlatform, lang: Seq<char>) -> Seq<char> {
    match platform {
        SpeechPlatform::Windows => if is_turkish(lang) {
            "tr-TR"@
        } else if is_american(lang) {
            "en-US"@
        } else if is_british(lang) {
            "en-GB"@
        } else {
            "en-US"@
        },
        SpeechPlatform::MacOs => if is_turkish(lang) {
            "Yelda"@
        } else if is_american(lang) {
            "Samantha"@
        } else if is_british(lang) {
            "Daniel"@
        } else {
            "Samantha"@
        },
        SpeechPlatform::Linux => if is_turkish(lang) {
            "tr"@
        } else {
            "en"@
        },
    }
}

/// The script handed to PowerShell, up to the culture.
pub open spec fn script_head() -> Seq<char> {
    "\n        Add-Type -AssemblyName System.Speech\n        $synth = New-Object System.Speech.Synthesis.SpeechSynthesizer\n        \n        # Try to select a voice for the specified culture\n        $voice = $synth.GetInstalledVoices() | Where-Object {\n            $_.VoiceInfo.Culture.Name -eq '"@
}

/// The script handed to PowerShell, between the culture and the text.
pub open spec fn script_body() -> Seq<char> {
    "'\n        } | Select-Object -First 1\n        \n        if ($voice) {\n            $synth.SelectVoice($voice.VoiceInfo.Name)\n        }\n        \n        $synth.Speak('"@
}

/// The script handed to PowerShell, after the text.
pub open spec fn script_tail() -> Seq<char> {
    "')\n        $synth.Dispose()\n        "@
}

/// The script that makes PowerShell speak `text` in the voice of `culture`,
/// if one is installed.
pub open spec fn script_text(culture: Seq<char>, text: Seq<char>) -> Seq<char> {
    script_head() + culture + script_body() + single_quoted(text) + script_tail()
}

/// The program that speaks on a platform.
pub open spec fn program_text(platform: SpeechPlatform) -> Seq<char> {
    match platform {
        SpeechPlatform::Windows => "powershell"@,
        SpeechPlatform::MacOs => "say"@,
        SpeechPlatform::Linux => "spd-say"@,
    }
}

/// The arguments of the first invocation on a platform.
pub open spec fn argument_texts(platform: SpeechPlatform, text: Seq<char>, lang: Seq<char>) -> Seq<
    Seq<char>,
> {
    match platform {
        SpeechPlatform::Windows => seq![
            "-NoProfile"@,
            "-NonInteractive"@,
            "-Command"@,
            script_text(voice_text(platform, lang), text),
        ],
        SpeechPlatform::MacOs => seq!["-v"@, voice_text(platform, lang), text],
        SpeechPlatform::Linux => seq!["-l"@, voice_text(platform, lang), text],
    }
}

/// What is reported when the engine could not be started.
pub open spec fn launch_failure_text(platform: SpeechPlatform, retried: bool, reason: Seq<char>)
    -> Seq<char> {
    match platform {
        SpeechPlatform::Windows => "Failed to execute PowerShell: "@ + reason,
        SpeechPlatform::MacOs => if retried {
            "Failed to execute 'say' command (fallback): "@ + reason
        } else {
            "Failed to execute 'say' command: "@ + reason
        },
        SpeechPlatform::Linux => "Failed to execute 'spd-say': "@ + reason
            + ". Make sure speech-dispatcher is installed."@,
    }
}

/// What is reported when the engine ran and failed.
pub open spec fn engine_failure_text(platform: SpeechPlatform, stderr: Seq<char>) -> Seq<char> {
    match platform {
        SpeechPlatform::Windows => "PowerShell TTS failed: "@ + stderr,
        SpeechPlatform::MacOs => "macOS TTS failed: "@ + stderr,
        SpeechPlatform::Linux => "Linux TTS failed: "@ + stderr,
    }
}

/// The text that describes an error to the user.
pub open spec fn speech_error_text(error: SpeechError) -> Seq<char> {
    match error {
        SpeechError::EmptyText => "Text cannot be empty"@,
        SpeechError::Launch { message } => message@,
        SpeechError::Engine { message } => message@,
    }
}

/// Escapes double quotes and removes backticks.
pub fn sanitize(text: &str) -> (clean: String)
    ensures
        clean@ == sanitized(text@),
{
    broadcast use vstd::string::group_string_axioms;

    let mut clean = String::new();
    let source = text.chars();
    assert(text@.take(0) =~= Seq::<char>::empty());
    for c in it: source
        invariant
            it.seq() == text@,
            clean@ == sanitized(text@.take(it.index())),
    {
        proof {
            let grown = text@.take(it.index() + 1);
            assert(grown.drop_last() =~= text@.take(it.index()));
            assert(grown.last() == c);
        }
        if c == '"' {
            clean.push('\\');
            clean.push('"');
        } else if c != '`' {
            clean.push(c);
        }
    }
    assert(text@.take(text@.len() as int) =~= text@);
    clean
}

/// Doubles single quotes.
pub fn quote_single(text: &str) -> (quoted: String)
    ensures
        quoted@ == single_quoted(text@),
{
    broadcast use vstd::string::group_string_axioms;

    let mut quoted = String::new();
    let source = text.chars();
    assert(text@.take(0) =~= Seq::<char>::empty());
    for c in it: source
        invariant
            it.seq() == text@,
            quoted@ == single_quoted(text@.take(it.index())),
    {
        proof {
            let grown = text@.take(it.index() + 1);
            assert(grown.drop_last() =~= text@.take(it.index()));
            assert(grown.last() == c);
        }
        if c == '\'' {
            quoted.push('\'');
        }
        quoted.push(c);
    }
    assert(text@.take(text@.len() as int) =~= text@);
    quoted
}

/// Checks and cleans what is to be spoken.
///
/// Text that is empty or all white space is refused. Otherwise the text is
/// sanitized and paired with the requested language, or with the default
/// when none is requested.
pub fn prepare(text: &str, lang: Option<String>) -> (result: Result<Utterance, SpeechError>)
    ensures
        match result {
            Ok(utterance) => {
                &&& !blank(text@)
                &&& utterance.text@ == sanitized(text@)
                &&& utterance.lang@ == match lang {
                    Some(requested) => requested@,
                    None => default_language(),
                }
            },
            Err(error) => blank(text@) && error is EmptyText,
        },
{
    let chars = chars_of(text);
    if trim(chars.as_slice()).len() == 0 {
        return Err(SpeechError::EmptyText);
    }
    let lang = match lang {
        Some(requested) => requested,
        None => String::from_str("en-US"),
    };
    Ok(Utterance { text: sanitize(text), lang })
}

impl SpeechError {
    /// The text that describes this error to the user.
    pub fn message(&self) -> (text: String)
        ensures
            text@ == speech_error_text(*self),
    {
        match self {
            SpeechError::EmptyText => String::from_str("Text cannot be empty"),
            SpeechError::Launch { message } => message.clone(),
            SpeechError::Engine { message } => message.clone(),
        }
    }
}

/// Picks the voice for a language on a platform.
pub fn voice(platform: SpeechPlatform, lang: &str) -> (name: &'static str)
    ensures
        name@ == voice_text(platform, lang@),
{
    let turkish = same_text(lang, "tr-TR") || same_text(lang, "tr");
    let american = same_text(lang, "en-US") || same_text(lang, "en");
    let british = same_text(lang, "en-GB");
    match platform {
        SpeechPlatform::Windows => if turkish {
            "tr-TR"
        } else if american {
            "en-US"
        } else if british {
            "en-GB"
        } else {
            "en-US"
        },
        SpeechPlatform::MacOs => if turkish {
            "Yelda"
        } else if american {
            "Samantha"
        } else if british {
            "Daniel"
        } else {
            "Samantha"
        },
        SpeechPlatform::Linux => if turkish {
            "tr"
        } else {
            "en"
        },
    }
}

/// Writes the script that makes PowerShell speak `text`.
pub fn powershell_script(culture: &str, text: &str) -> (script: String)
    ensures
        script@ == script_text(culture@, text@),
{
    let mut script = String::from_str(
        "\n        Add-Type -AssemblyName System.Speech\n        $synth = New-Object System.Speech.Synthesis.SpeechSynthesizer\n        \n        # Try to select a voice for the specified culture\n        $voice = $synth.GetInstalledVoices() | Where-Object {\n            $_.VoiceInfo.Culture.Name -eq '",
    );
    script.append(culture);
    script.append(
        "'\n        } | Select-Object -First 1\n        \n        if ($voice) {\n            $synth.SelectVoice($voice.VoiceInfo.Name)\n        }\n        \n        $synth.Speak('",
    );
    let quoted = quote_single(text);
    script.append(quoted.as_str());
    script.append("')\n        $synth.Dispose()\n        ");
    script
}

/// The first invocation for an utterance: the platform's engine, asked for
/// the voice of the utterance's language.
pub fn first_attempt(platform: SpeechPlatform, utterance: &Utterance) -> (command: SpeechCommand)
    ensures
        command.program@ == program_text(platform),
        texts(command.args@) == argument_texts(platform, utterance.text@, utterance.lang@),
{
    let name = voice(platform, utterance.lang.as_str());
    let mut args: Vec<String> = Vec::new();
    match platform {
        SpeechPlatform::Windows => {
            args.push(String::from_str("-NoProfile"));
            args.push(String::from_str("-NonInteractive"));
            args.push(String::from_str("-Command"));
            args.push(powershell_script(name, utterance.text.as_str()));
            assert(texts(args@) =~= argument_texts(platform, utterance.text@, utterance.lang@));
            SpeechCommand { program: String::from_str("powershell"), args }
        },
        SpeechPlatform::MacOs => {
            args.push(String::from_str("-v"));
            args.push(String::from_str(name));
            args.push(utterance.text.clone());
            assert(texts(args@) =~= argument_texts(platform, utterance.text@, utterance.lang@));
            SpeechCommand { program: String::from_str("say"), args }
        },
        SpeechPlatform::Linux => {
            args.push(String::from_str("-l"));
            args.push(String::from_str(name));
            args.push(utterance.text.clone());
            assert(texts(args@) =~= argument_texts(platform, utterance.text@, utterance.lang@));
            SpeechCommand { program: String::from_str("spd-say"), args }
        },
    }
}

/// Decides what follows an invocation.
///
/// Success ends the matter. An engine that could not be started, or that
/// failed, is an error, with one exception: when the first invocation on
/// macOS fails, the requested voice may be missing, and the text is spoken
/// once more in the system's own voice. `retried` says whether the
/// invocation that just ended was that second one.
pub fn after_attempt(
    platform: SpeechPlatform,
    utterance: &Utterance,
    retried: bool,
    outcome: AttemptOutcome,
) -> (step: SpeechStep)
    ensures
        match outcome {
            AttemptOutcome::Succeeded => step is Finished,
            AttemptOutcome::NotLaunched { reason } => {
                &&& step matches SpeechStep::Failed(SpeechError::Launch { message })
                &&& message@ == launch_failure_text(platform, retried, reason@)
            },
            AttemptOutcome::Rejected { stderr } => if platform == SpeechPlatform::MacOs
                && !retried {
                &&& step matches SpeechStep::Retry(command)
                &&& command.program@ == program_text(platform)
                &&& texts(command.args@) == seq![utterance.text@]
            } else {
                &&& step matches SpeechStep::Failed(SpeechError::Engine { message })
                &&& message@ == engine_failure_text(platform, stderr@)
            },
        },
{
    match outcome {
        AttemptOutcome::Succeeded => SpeechStep::Finished,
        AttemptOutcome::NotLaunched { reason } => {
            let mut message = String::new();
            match platform {
                SpeechPlatform::Windows => {
                    message.append("Failed to execute PowerShell: ");
                    message.append(reason.as_str());
                },
                SpeechPlatform::MacOs => {
                    if retried {
                        message.append("Failed to execute 'say' command (fallback): ");
                    } else {
                        message.append("Failed to execute 'say' command: ");
                    }
                    message.append(reason.as_str());
                },
                SpeechPlatform::Linux => {
                    message.append("Failed to execute 'spd-say': ");
                    message.append(reason.as_str());
                    message.append(". Make sure speech-dispatcher is installed.");
                },
            }
            assert(message@ =~= launch_failure_text(platform, retried, reason@));
            SpeechStep::Failed(SpeechError::Launch { message })
        },
        AttemptOutcome::Rejected { stderr } => {
            if platform == SpeechPlatform::MacOs && !retried {
                let mut args: Vec<String> = Vec::new();
                args.push(utterance.text.clone());
                assert(texts(args@) =~= seq![utterance.text@]);
                SpeechStep::Retry(SpeechCommand { program: String::from_str("say"), args })
            } else {
                let mut message = String::new();
                match platform {
                    SpeechPlatform::Windows => {
                        message.append("PowerShell TTS failed: ");
                    },
                    SpeechPlatform::MacOs => {
                        message.append("macOS TTS failed: ");
                    },
                    SpeechPlatform::Linux => {
                        message.append("Linux TTS failed: ");
                    },
                }
                message.append(stderr.as_str());
                assert(message@ =~= engine_failure_text(platform, stderr@));
                SpeechStep::Failed(SpeechError::Engine { message })
            }
        },
    }
}

/// Sanitized text holds no backtick, and every double quote in it follows a
/// backslash.
pub proof fn lemma_sanitized_is_safe(text: Seq<char>)
    ensures
        !sanitized(text).contains('`'),
        forall|i: int|
            0 <= i < sanitized(text).len() && #[trigger] sanitized(text)[i] == '"' ==> i > 0
                && sanitized(text)[i - 1] == '\\',
    decreases text.len(),
{
    if text.len() > 0 {
        let head = sanitized(text.drop_last());
        let whole = sanitized(text);
        lemma_sanitized_is_safe(text.drop_last());
        if whole.contains('`') {
            let k = choose|k: int| 0 <= k < whole.len() && whole[k] == '`';
            if k < head.len() {
                assert(head[k] == '`');
            }
        }
        assert forall|i: int| 0 <= i < whole.len() && #[trigger] whole[i] == '"' implies i > 0
            && whole[i - 1] == '\\' by {
            if i < head.len() {
                assert(head[i] == '"');
                assert(whole[i - 1] == head[i - 1]);
            }
        }
    }
}

} // verus!
