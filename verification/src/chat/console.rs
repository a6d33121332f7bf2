//! The interactive console: commands, attached files, placeholders for what
//! they encode to, and how much of a conversation is kept.
use vstd::prelude::*;
use crate::chat::prompt::{turns, ChatMessage};
use crate::text::{
    begins, chars_of, contains, cut, cut_at, free_of, has, join2, law_first_is_replaced,
    law_nothing_to_replace, lemma_cut, replace, replaced, same, slice_string, split_words,
    stands_at, strip_prefix, texts, trim, trimmed, words, Text,
};
use crate::tokenizer::{id_of_token, LlmTokenizer};
use crate::types::{text_opt, ModelMeta};

verus! {

/// What a line asks for.
#[derive(Debug, Clone, Copy, PartialEq, Eq, Structural)]
pub enum Command {
    /// An empty line.
    Nothing,
    Exit,
    Clear,
    Help,
    /// Something for the model.
    Say,
}

/// What the line `line`, without white space around it, asks for.
pub open spec fn command_of(line: Text) -> Command {
    if line.len() == 0 {
        Command::Nothing
    } else if line == "/exit"@ || line == "/quit"@ {
        Command::Exit
    } else if line == "/clear"@ {
        Command::Clear
    } else if line == "/help"@ {
        Command::Help
    } else {
        Command::Say
    }
}

/// Reads a line.
pub fn read_command(line: &str) -> (c: Command)
    ensures
        c == command_of(trimmed(line@)),
{
    let line = trim(line);
    if chars_of(&line).len() == 0 {
        Command::Nothing
    } else if same(&line, "/exit") || same(&line, "/quit") {
        Command::Exit
    } else if same(&line, "/clear") {
        Command::Clear
    } else if same(&line, "/help") {
        Command::Help
    } else {
        Command::Say
    }
}

/// What is attached.
#[derive(Debug, Clone, Copy, PartialEq, Eq, Structural)]
pub enum Media {
    Image,
    Audio,
}

/// A line that is being taken apart.
#[derive(Debug, Clone)]
pub struct UserInput<S = String> {
    /// What has not been looked at.
    pub remaining: S,
    /// The text for the model.
    pub text: S,
    pub image: Option<S>,
    pub audio: Option<S>,
}

impl View for UserInput {
    type V = UserInput<Text>;

    open spec fn view(&self) -> UserInput<Text> {
        UserInput {
            remaining: self.remaining@,
            text: self.text@,
            image: text_opt(self.image),
            audio: text_opt(self.audio),
        }
    }
}

/// What comes next in a line.
#[derive(Debug, Clone)]
pub enum InputStep<S = String> {
    Finished,
    /// The rest is text.
    Text,
    /// A file is attached; its path is at the start of the rest.
    Attach(Media, S),
}

impl View for InputStep {
    type V = InputStep<Text>;

    open spec fn view(&self) -> InputStep<Text> {
        match *self {
            InputStep::Finished => InputStep::Finished,
            InputStep::Text => InputStep::Text,
            InputStep::Attach(m, s) => InputStep::Attach(m, s@),
        }
    }
}

/// What comes next in `remaining`.
pub open spec fn next_of(remaining: Text) -> InputStep<Text> {
    if remaining.len() == 0 {
        InputStep::Finished
    } else if begins(remaining, "/image "@) {
        InputStep::Attach(Media::Image, remaining.skip("/image "@.len() as int))
    } else if begins(remaining, "/audio "@) {
        InputStep::Attach(Media::Audio, remaining.skip("/audio "@.len() as int))
    } else {
        InputStep::Text
    }
}

/// A path in quotes at the start of `rest`, and what stands behind it.
pub open spec fn quoted(rest: Text) -> Option<(Text, Text)> {
    if rest.len() > 0 && (rest[0] == '"' || rest[0] == '\'') {
        match cut(rest.skip(1), rest[0]) {
            Some((path, after)) => if path.len() > 0 {
                Some((path, after))
            } else {
                None
            },
            None => None,
        }
    } else {
        None
    }
}

/// Words with single spaces between them.
pub open spec fn spaced(parts: Seq<Text>) -> Text
    decreases parts.len(),
{
    if parts.len() == 0 {
        Seq::empty()
    } else if parts.len() == 1 {
        parts[0]
    } else {
        spaced(parts.drop_last()) + " "@ + parts.last()
    }
}

/// The paths that may be meant where there are no quotes: the first word, the
/// first two words, and so on.
pub open spec fn path_candidates(rest: Text) -> Seq<Text> {
    if quoted(rest) is Some {
        Seq::empty()
    } else {
        Seq::new(words(rest).len(), |i: int| spaced(words(rest).take(i + 1)))
    }
}

/// The path that is meant and what stands behind it, where `found` is the first
/// of the candidates at which there is a file.
pub open spec fn picked(rest: Text, found: Option<Text>) -> (Text, Text) {
    match quoted(rest) {
        Some(p) => p,
        None => if words(rest).len() == 0 {
            (Seq::empty(), Seq::empty())
        } else {
            let path = match found {
                Some(candidate) => candidate,
                None => words(rest)[0],
            };
            (
                path,
                if begins(rest, path) {
                    trimmed(rest.skip(path.len() as int))
                } else {
                    trimmed(""@)
                },
            )
        },
    }
}

/// What is written in place of an attached file.
pub open spec fn mark(m: Media) -> Text {
    match m {
        Media::Image => "<image> "@,
        Media::Audio => "<audio> "@,
    }
}

/// The line once a file at `path` was attached, or left out where there is
/// none, and `after` stands behind it.
pub open spec fn attached(
    u: UserInput<Text>,
    m: Media,
    path: Text,
    exists: bool,
    after: Text,
) -> UserInput<Text> {
    UserInput {
        remaining: trimmed(after),
        text: if exists {
            u.text + mark(m)
        } else {
            u.text
        },
        image: if exists && m == Media::Image {
            Some(path)
        } else {
            u.image
        },
        audio: if exists && m == Media::Audio {
            Some(path)
        } else {
            u.audio
        },
    }
}

fn read_quoted(rest: &str) -> (r: Option<(String, String)>)
    ensures
        match r {
            Some((path, after)) => quoted(rest@) == Some((path@, after@)),
            None => quoted(rest@) is None,
        },
{
    let chars = chars_of(rest);
    let n: usize = chars.len();
    if n > 0 && (chars[0] == '"' || chars[0] == '\'') {
        let inner = slice_string(&chars, 1, n);
        assert(inner@ =~= rest@.skip(1));
        if let Some((path, after)) = cut_at(&inner, chars[0]) {
            if chars_of(&path).len() > 0 {
                return Some((path, after));
            }
        }
    }
    None
}

fn join_words(parts: &Vec<String>, n: usize) -> (out: String)
    requires
        n <= parts@.len(),
    ensures
        out@ == spaced(texts(parts@).take(n as int)),
    decreases n,
{
    let ghost front = texts(parts@).take(n as int);
    if n == 0 {
        assert(front =~= Seq::<Text>::empty());
        return String::new();
    }
    if n == 1 {
        assert(front[0] == parts@[0]@);
        return parts[0].clone();
    }
    let mut out = join_words(parts, n - 1);
    assert(front.drop_last() =~= texts(parts@).take(n - 1));
    assert(front.last() == parts@[n - 1]@);
    out.append(" ");
    out.append(&parts[n - 1]);
    out
}

/// The paths that may be meant at the start of `rest`, in the order in which
/// they are tried. None where a path stands there in quotes.
pub fn media_candidates(rest: &str) -> (out: Vec<String>)
    ensures
        texts(out@) == path_candidates(rest@),
{
    let mut out: Vec<String> = Vec::new();
    if read_quoted(rest).is_some() {
        assert(texts(out@) =~= path_candidates(rest@));
        return out;
    }
    let parts = split_words(rest);
    assert(texts(parts@).len() == parts@.len());
    let mut i: usize = 0;
    while i < parts.len()
        invariant
            i <= parts@.len(),
            out@.len() == i,
            texts(parts@) == words(rest@),
            forall|k: int|
                0 <= k < i ==> (#[trigger] out@[k])@ == spaced(words(rest@).take(k + 1)),
        decreases parts@.len() - i,
    {
        out.push(join_words(&parts, i + 1));
        i += 1;
    }
    assert(texts(out@) =~= path_candidates(rest@));
    out
}

/// The path that is meant at the start of `rest` and what stands behind it.
/// `found` is the first of the candidates at which there is a file.
pub fn pick_path(rest: &str, found: Option<String>) -> (r: (String, String))
    ensures
        (r.0@, r.1@) == picked(rest@, text_opt(found)),
{
    if let Some((path, after)) = read_quoted(rest) {
        return (path, after);
    }
    let parts = split_words(rest);
    assert(texts(parts@).len() == parts@.len());
    if parts.len() == 0 {
        return (String::new(), String::new());
    }
    assert(texts(parts@)[0] == parts@[0]@);
    let path = match found {
        Some(candidate) => candidate,
        None => parts[0].clone(),
    };
    let after = match strip_prefix(rest, &path) {
        Some(s) => trim(&s),
        None => trim(""),
    };
    (path, after)
}

impl UserInput {
    /// A line that nothing was taken from.
    pub fn new(line: &str) -> (u: Self)
        ensures
            u@ == (UserInput {
                remaining: trimmed(line@),
                text: Seq::<char>::empty(),
                image: None::<Text>,
                audio: None::<Text>,
            }),
    {
        UserInput { remaining: trim(line), text: String::new(), image: None, audio: None }
    }

    /// What comes next.
    pub fn next(&self) -> (s: InputStep)
        ensures
            s@ == next_of(self@.remaining),
    {
        if chars_of(&self.remaining).len() == 0 {
            return InputStep::Finished;
        }
        if let Some(rest) = strip_prefix(&self.remaining, "/image ") {
            return InputStep::Attach(Media::Image, rest);
        }
        if let Some(rest) = strip_prefix(&self.remaining, "/audio ") {
            return InputStep::Attach(Media::Audio, rest);
        }
        InputStep::Text
    }

    /// Attaches the file at `path`, where there is one, and goes on with what
    /// stands behind it.
    pub fn attach(&mut self, m: Media, path: String, exists: bool, after: &str)
        ensures
            final(self)@ == attached(old(self)@, m, path@, exists, after@),
    {
        self.remaining = trim(after);
        if exists {
            match m {
                Media::Image => {
                    self.text.append("<image> ");
                    self.image = Some(path);
                },
                Media::Audio => {
                    self.text.append("<audio> ");
                    self.audio = Some(path);
                },
            }
        }
    }

    /// The text, once nothing but text remains.
    pub fn finish(&self) -> (out: String)
        ensures
            out@ == trimmed(self@.text + self@.remaining),
    {
        trim(&join2(&self.text, &self.remaining))
    }
}

/// A message, with a mark in front for each attached file that it does not
/// mark itself.
pub open spec fn marked(text: Text, image: bool, audio: bool) -> Text {
    let with_image = if image && !(has(text, "<image>"@) || has(text, "<|image|>"@)) {
        "<image>\n"@ + text
    } else {
        text
    };
    if audio && !(has(with_image, "<audio>"@) || has(with_image, "<|audio|>"@)) {
        "<audio>\n"@ + with_image
    } else {
        with_image
    }
}

/// The message of a line with attached files.
pub fn message_content(text: &str, image: bool, audio: bool) -> (out: String)
    ensures
        out@ == marked(text@, image, audio),
{
    let mut out = text.to_string();
    if image && !(contains(&out, "<image>") || contains(&out, "<|image|>")) {
        out = join2("<image>\n", &out);
    }
    if audio && !(contains(&out, "<audio>") || contains(&out, "<|audio|>")) {
        out = join2("<audio>\n", &out);
    }
    out
}

/// Which special tokens the vocabulary has.
#[derive(Debug, Clone, Copy, PartialEq, Eq, Structural)]
pub struct MediaTokens {
    /// `<|image_pad|>`
    pub image_pad: bool,
    /// `<|image|>`
    pub image: bool,
    /// `<image>`
    pub image_plain: bool,
    /// `<|vision_start|>` and `<|vision_end|>`
    pub vision: bool,
    /// `<|image>` and `<image|>`
    pub image_pair: bool,
    /// `<|audio_pad|>`
    pub audio_pad: bool,
    /// `<|audio|>`
    pub audio: bool,
    /// `<audio>`
    pub audio_plain: bool,
}

/// The special tokens among those that the vocabulary of `json` has.
pub open spec fn media_tokens(json: Seq<u8>) -> MediaTokens {
    MediaTokens {
        image_pad: id_of_token(json, "<|image_pad|>"@) is Some,
        image: id_of_token(json, "<|image|>"@) is Some,
        image_plain: id_of_token(json, "<image>"@) is Some,
        vision: id_of_token(json, "<|vision_start|>"@) is Some && id_of_token(
            json,
            "<|vision_end|>"@,
        ) is Some,
        image_pair: id_of_token(json, "<|image>"@) is Some && id_of_token(json, "<image|>"@) is Some,
        audio_pad: id_of_token(json, "<|audio_pad|>"@) is Some,
        audio: id_of_token(json, "<|audio|>"@) is Some,
        audio_plain: id_of_token(json, "<audio>"@) is Some,
    }
}

impl MediaTokens {
    /// Which of them a tokenizer's vocabulary has.
    pub fn of(tokenizer: &LlmTokenizer) -> (t: Self)
        ensures
            t == media_tokens(tokenizer.json()),
    {
        MediaTokens {
            image_pad: tokenizer.token_to_id("<|image_pad|>").is_some(),
            image: tokenizer.token_to_id("<|image|>").is_some(),
            image_plain: tokenizer.token_to_id("<image>").is_some(),
            vision: tokenizer.token_to_id("<|vision_start|>").is_some() && tokenizer.token_to_id(
                "<|vision_end|>",
            ).is_some(),
            image_pair: tokenizer.token_to_id("<|image>").is_some() && tokenizer.token_to_id(
                "<image|>",
            ).is_some(),
            audio_pad: tokenizer.token_to_id("<|audio_pad|>").is_some(),
            audio: tokenizer.token_to_id("<|audio|>").is_some(),
            audio_plain: tokenizer.token_to_id("<audio>").is_some(),
        }
    }
}

/// The placeholder of one image vector.
pub open spec fn image_pad(t: MediaTokens) -> Text {
    if t.image_pad {
        "<|image_pad|>"@
    } else if t.image {
        "<|image|>"@
    } else if t.image_plain {
        "<image>"@
    } else {
        "<|image|>"@
    }
}

/// The placeholder of one audio vector.
pub open spec fn audio_pad(t: MediaTokens) -> Text {
    if t.audio_pad {
        "<|audio_pad|>"@
    } else if t.audio {
        "<|audio|>"@
    } else if t.audio_plain {
        "<audio>"@
    } else {
        "<|audio|>"@
    }
}

pub open spec fn or_size(o: Option<usize>, default: usize) -> usize {
    match o {
        Some(n) => n,
        None => default,
    }
}

pub open spec fn at_least(n: int, least: int) -> int {
    if n < least {
        least
    } else {
        n
    }
}

/// Patches along one side of an image.
pub open spec fn patches_per_side(image: Option<usize>, patch: Option<usize>) -> int {
    or_size(image, 224) as int / at_least(or_size(patch, 16) as int, 1)
}

/// How many vectors an image is encoded to. At least sixteen placeholders are
/// written, since shorter runs are not taken for an image.
pub open spec fn image_tokens(
    image: Option<usize>,
    patch: Option<usize>,
    merge: Option<usize>,
) -> int {
    let side = patches_per_side(image, patch);
    let m = at_least(or_size(merge, 1) as int, 1);
    at_least((side * side) / (m * m), 16)
}

/// How many vectors a recording is encoded to: half its frames where there are
/// 80 mel bins, a quarter otherwise.
pub open spec fn audio_tokens(mel_bins: Option<usize>) -> int {
    if mel_bins == Some(80usize) {
        1500
    } else {
        750
    }
}

/// `t`, `n` times.
pub open spec fn repeated(t: Text, n: nat) -> Text
    decreases n,
{
    if n == 0 {
        Seq::empty()
    } else {
        repeated(t, (n - 1) as nat) + t
    }
}

fn repeat(t: &str, n: usize) -> (out: String)
    ensures
        out@ == repeated(t@, n as nat),
{
    let mut out = String::new();
    assert(out@ =~= repeated(t@, 0));
    let mut i: usize = 0;
    while i < n
        invariant
            i <= n,
            out@ == repeated(t@, i as nat),
        decreases n - i,
    {
        out.append(t);
        i += 1;
    }
    out
}

/// What stands for an image in the prompt.
pub open spec fn image_text(t: MediaTokens, n: nat) -> Text {
    let pads = repeated(image_pad(t), n);
    if t.vision {
        "<|vision_start|>"@ + pads + "<|vision_end|>"@
    } else if t.image_pair {
        "<|image>"@ + pads + "<image|>"@
    } else {
        pads
    }
}

/// The sizes that an image's vectors are counted by.
pub open spec fn sizes_fit(meta: ModelMeta<Text, Seq<bool>>) -> bool {
    let side = patches_per_side(meta.vision_image_size, meta.vision_patch_size);
    let m = at_least(or_size(meta.spatial_merge_size, 1) as int, 1);
    side * side <= usize::MAX && m * m <= usize::MAX
}

/// A prompt with placeholders for what attached files are encoded to.
pub open spec fn expanded(
    prompt: Text,
    meta: ModelMeta<Text, Seq<bool>>,
    t: MediaTokens,
) -> Text {
    let with_images = if meta.has_vision_encoder {
        replaced(
            prompt,
            "<image>"@,
            image_text(
                t,
                image_tokens(
                    meta.vision_image_size,
                    meta.vision_patch_size,
                    meta.spatial_merge_size,
                ) as nat,
            ),
        )
    } else {
        prompt
    };
    if meta.has_audio_encoder {
        replaced(
            with_images,
            "<audio>"@,
            repeated(audio_pad(t), audio_tokens(meta.audio_num_mel_bins) as nat),
        )
    } else {
        with_images
    }
}

fn size_or(o: Option<usize>, default: usize) -> (n: usize)
    ensures
        n == or_size(o, default),
{
    match o {
        Some(n) => n,
        None => default,
    }
}

fn count_image_tokens(meta: &ModelMeta) -> (n: usize)
    requires
        sizes_fit(meta@),
    ensures
        n == image_tokens(
            meta.vision_image_size,
            meta.vision_patch_size,
            meta.spatial_merge_size,
        ),
{
    let image = size_or(meta.vision_image_size, 224);
    let mut patch = size_or(meta.vision_patch_size, 16);
    if patch < 1 {
        patch = 1;
    }
    let mut merge = size_or(meta.spatial_merge_size, 1);
    if merge < 1 {
        merge = 1;
    }
    let side: usize = image / patch;
    assert(merge * merge >= 1) by (nonlinear_arith)
        requires
            merge >= 1,
    ;
    assert(side * side >= 0) by (nonlinear_arith)
        requires
            side >= 0,
    ;
    let n: usize = (side * side) / (merge * merge);
    if n < 16 {
        16
    } else {
        n
    }
}

fn image_replacement(meta: &ModelMeta, t: MediaTokens) -> (out: String)
    requires
        sizes_fit(meta@),
    ensures
        out@ == image_text(
            t,
            image_tokens(
                meta.vision_image_size,
                meta.vision_patch_size,
                meta.spatial_merge_size,
            ) as nat,
        ),
{
    let pad = if t.image_pad {
        "<|image_pad|>"
    } else if t.image {
        "<|image|>"
    } else if t.image_plain {
        "<image>"
    } else {
        "<|image|>"
    };
    let pads = repeat(pad, count_image_tokens(meta));
    let mut out = String::new();
    if t.vision {
        out.append("<|vision_start|>");
        out.append(&pads);
        out.append("<|vision_end|>");
    } else if t.image_pair {
        out.append("<|image>");
        out.append(&pads);
        out.append("<image|>");
    } else {
        out.append(&pads);
    }
    assert(out@ =~= image_text(
        t,
        image_tokens(
            meta.vision_image_size,
            meta.vision_patch_size,
            meta.spatial_merge_size,
        ) as nat,
    ));
    out
}

/// Writes placeholders into a prompt where files were attached: one for each
/// vector that the model's encoder makes of one.
pub fn expand_media(prompt: &str, meta: &ModelMeta, t: MediaTokens) -> (out: String)
    requires
        meta.has_vision_encoder ==> sizes_fit(meta@),
    ensures
        out@ == expanded(prompt@, meta@, t),
{
    proof {
        reveal_strlit("<image>");
        reveal_strlit("<audio>");
    }
    let mut out = prompt.to_string();
    if meta.has_vision_encoder {
        let with = image_replacement(meta, t);
        out = replace(&out, "<image>", &with);
    }
    if meta.has_audio_encoder {
        let pad = if t.audio_pad {
            "<|audio_pad|>"
        } else if t.audio {
            "<|audio|>"
        } else if t.audio_plain {
            "<audio>"
        } else {
            "<|audio|>"
        };
        let n: usize = match meta.audio_num_mel_bins {
            Some(80) => 1500,
            _ => 750,
        };
        let pads = repeat(pad, n);
        out = replace(&out, "<audio>", &pads);
    }
    out
}

/// Turns that are kept.
pub const MAX_TURNS: usize = 20;

/// The conversation begins with a system prompt.
pub open spec fn led(messages: Seq<ChatMessage<Text>>) -> bool {
    messages.len() > 0 && messages[0].role == "system"@
}

/// A conversation cut to its last turns, with its system prompt kept in front.
pub open spec fn kept(messages: Seq<ChatMessage<Text>>) -> Seq<ChatMessage<Text>> {
    if messages.len() <= 2 * MAX_TURNS + 1 {
        messages
    } else {
        let start = messages.len() - 2 * MAX_TURNS - (if led(messages) {
            1int
        } else {
            0
        });
        let rest = messages.skip(start);
        if led(messages) && rest[0].role != "system"@ {
            seq![messages[0]] + rest
        } else {
            rest
        }
    }
}

/// Cuts a conversation so that it does not outgrow the model's context.
pub fn trim_history(messages: Vec<ChatMessage>) -> (out: Vec<ChatMessage>)
    ensures
        turns(out@) == kept(turns(messages@)),
{
    let n: usize = messages.len();
    if n <= 2 * MAX_TURNS + 1 {
        return messages;
    }
    let led = same(&messages[0].role, "system");
    assert(turns(messages@)[0] == messages@[0]@);
    let start: usize = n - 2 * MAX_TURNS - (if led {
        1
    } else {
        0
    });
    let mut out: Vec<ChatMessage> = Vec::new();
    if led && !same(&messages[start].role, "system") {
        out.push(
            ChatMessage { role: messages[0].role.clone(), content: messages[0].content.clone() },
        );
    }
    let ghost front = turns(out@);
    assert(turns(messages@).skip(start as int)[0] == messages@[start as int]@);
    let mut i: usize = start;
    while i < n
        invariant
            start <= i <= n,
            n == messages@.len(),
            turns(out@) == front + turns(messages@).subrange(start as int, i as int),
        decreases n - i,
    {
        let ghost before = out@;
        out.push(
            ChatMessage { role: messages[i].role.clone(), content: messages[i].content.clone() },
        );
        assert(turns(out@) =~= turns(before).push(messages@[i as int]@));
        assert(turns(messages@).subrange(start as int, i + 1) =~= turns(messages@).subrange(
            start as int,
            i as int,
        ).push(messages@[i as int]@));
        i += 1;
    }
    assert(turns(messages@).subrange(start as int, n as int) =~= turns(messages@).skip(
        start as int,
    ));
    assert(turns(out@) =~= kept(turns(messages@)));
    out
}

/// A conversation that was cut keeps its latest messages in order, is bounded,
/// and still begins with its system prompt.
pub proof fn law_history_keeps_latest(messages: Seq<ChatMessage<Text>>)
    ensures
        kept(messages).len() <= 2 * MAX_TURNS + 2,
        led(messages) ==> led(kept(messages)),
        messages.len() >= 2 * MAX_TURNS ==> kept(messages).skip(
            kept(messages).len() - 2 * MAX_TURNS,
        ) == messages.skip(messages.len() - 2 * MAX_TURNS),
        messages.len() <= 2 * MAX_TURNS + 1 ==> kept(messages) == messages,
{
    if messages.len() >= 2 * MAX_TURNS {
        assert(kept(messages).skip(kept(messages).len() - 2 * MAX_TURNS) =~= messages.skip(
            messages.len() - 2 * MAX_TURNS,
        ));
    }
}

/// What each line asks for: a command only if it is the whole line.
pub proof fn law_commands(line: Text)
    ensures
        command_of(line) == Command::Nothing <==> line.len() == 0,
        command_of(line) == Command::Exit <==> line == "/exit"@ || line == "/quit"@,
        command_of(line) == Command::Clear <==> line == "/clear"@,
        command_of(line) == Command::Help <==> line == "/help"@,
        command_of(line) == Command::Say <==> line.len() > 0 && line != "/exit"@ && line
            != "/quit"@ && line != "/clear"@ && line != "/help"@,
{
    reveal_strlit("/exit");
    reveal_strlit("/quit");
    reveal_strlit("/clear");
    reveal_strlit("/help");
    assert("/exit"@.len() == 5);
    assert("/quit"@.len() == 5);
    assert("/clear"@.len() == 6);
    assert("/help"@.len() == 5);
    assert("/exit"@[1] != "/quit"@[1]);
    assert("/exit"@[1] != "/help"@[1]);
    assert("/quit"@[1] != "/help"@[1]);
}

/// A line that begins with `/image ` attaches an image, one that begins with
/// `/audio ` a recording, and the path is looked for right behind it; any
/// other line is text.
pub proof fn law_attachments(rest: Text)
    ensures
        next_of(seq![]) == InputStep::<Text>::Finished,
        next_of("/image "@ + rest) == InputStep::Attach(Media::Image, rest),
        next_of("/audio "@ + rest) == InputStep::Attach(Media::Audio, rest),
        rest.len() > 0 && !(begins(rest, "/image "@)) && !(begins(rest, "/audio "@)) ==> next_of(rest)
            == InputStep::<Text>::Text,
{
    reveal_strlit("/image ");
    reveal_strlit("/audio ");
    let image = "/image "@ + rest;
    let audio = "/audio "@ + rest;
    assert(image.subrange(0, 7) =~= "/image "@);
    assert(audio.subrange(0, 7) =~= "/audio "@);
    assert(image.skip(7) =~= rest);
    assert(audio.skip(7) =~= rest);
    if begins(audio, "/image "@) {
        assert(audio.subrange(0, 7)[1] == "/audio "@[1]);
    }
}

/// A path in quotes of either kind is read as it stands between them.
pub proof fn law_quotes_hold_path(path: Text, after: Text)
    requires
        path.len() > 0,
    ensures
        free_of(path, '"') ==> quoted(seq!['"'] + path + seq!['"'] + after) == Some((path, after)),
        free_of(path, '\'') ==> quoted(seq!['\''] + path + seq!['\''] + after) == Some(
            (path, after),
        ),
{
    if free_of(path, '"') {
        lemma_cut(path, '"', after);
        assert((seq!['"'] + path + seq!['"'] + after).skip(1) =~= path.push('"') + after);
    }
    if free_of(path, '\'') {
        lemma_cut(path, '\'', after);
        assert((seq!['\''] + path + seq!['\''] + after).skip(1) =~= path.push('\'') + after);
    }
}

/// Without quotes the path is the file that was found, or else the first word,
/// and what stands behind it is what is left.
pub proof fn law_path_is_picked(path: Text, after: Text, found: Option<Text>)
    requires
        quoted(path + after) is None,
        words(path + after).len() > 0,
    ensures
        found == Some(path) ==> picked(path + after, found) == (path, trimmed(after)),
        found is None && words(path + after)[0] == path ==> picked(path + after, found) == (
            path,
            trimmed(after),
        ),
{
    let rest = path + after;
    assert(rest.subrange(0, path.len() as int) =~= path);
    assert(rest.skip(path.len() as int) =~= after);
}

/// An attached file is remembered under its own kind and marked in the text;
/// the other kind stays as it was. A file that is not there leaves no trace.
pub proof fn law_attaching(u: UserInput<Text>, path: Text, after: Text)
    ensures
        ({
            let image = attached(u, Media::Image, path, true, after);
            let audio = attached(u, Media::Audio, path, true, after);
            &&& image.image == Some(path) && image.audio == u.audio
            &&& image.text == u.text + "<image> "@
            &&& audio.audio == Some(path) && audio.image == u.image
            &&& audio.text == u.text + "<audio> "@
            &&& image.remaining == trimmed(after) && audio.remaining == trimmed(after)
        }),
        forall|m: Media| #[trigger]
            attached(u, m, path, false, after) == (UserInput {
                remaining: trimmed(after),
                text: u.text,
                image: u.image,
                audio: u.audio,
            }),
{
}

/// A message has a mark for every kind of file that was attached to it, and
/// one that had a mark is not given another.
pub proof fn law_marks(text: Text)
    ensures
        marked(text, false, false) == text,
        !(has(text, "<image>"@)) && !(has(text, "<|image|>"@)) ==> marked(text, true, false)
            == "<image>\n"@ + text,
        !(has(text, "<audio>"@)) && !(has(text, "<|audio|>"@)) ==> marked(text, false, true)
            == "<audio>\n"@ + text,
        has(text, "<image>"@) || has(text, "<|image|>"@) ==> marked(text, true, false) == text,
        has(text, "<audio>"@) || has(text, "<|audio|>"@) ==> marked(text, false, true) == text,
        marked(text, true, true) == marked(marked(text, true, false), false, true),
{
}

/// Which special tokens there are is told by the vocabulary, each by its own
/// text.
pub proof fn law_media_tokens(json: Seq<u8>)
    ensures
        media_tokens(json).image_pad <==> id_of_token(json, "<|image_pad|>"@) is Some,
        media_tokens(json).image <==> id_of_token(json, "<|image|>"@) is Some,
        media_tokens(json).image_plain <==> id_of_token(json, "<image>"@) is Some,
        media_tokens(json).audio_pad <==> id_of_token(json, "<|audio_pad|>"@) is Some,
        media_tokens(json).audio <==> id_of_token(json, "<|audio|>"@) is Some,
        media_tokens(json).audio_plain <==> id_of_token(json, "<audio>"@) is Some,
        media_tokens(json).vision <==> id_of_token(json, "<|vision_start|>"@) is Some
            && id_of_token(json, "<|vision_end|>"@) is Some,
        media_tokens(json).image_pair <==> id_of_token(json, "<|image>"@) is Some && id_of_token(
            json,
            "<image|>"@,
        ) is Some,
{
}

/// The placeholder of a vector is the first of three that the vocabulary has;
/// one that it does not have is written only where it has none of them.
pub proof fn law_placeholders(t: MediaTokens)
    ensures
        t.image_pad ==> image_pad(t) == "<|image_pad|>"@,
        !t.image_pad && t.image ==> image_pad(t) == "<|image|>"@,
        !t.image_pad && !t.image && t.image_plain ==> image_pad(t) == "<image>"@,
        !t.image_pad && !t.image && !t.image_plain ==> image_pad(t) == "<|image|>"@,
        t.audio_pad ==> audio_pad(t) == "<|audio_pad|>"@,
        !t.audio_pad && t.audio ==> audio_pad(t) == "<|audio|>"@,
        !t.audio_pad && !t.audio && t.audio_plain ==> audio_pad(t) == "<audio>"@,
        !t.audio_pad && !t.audio && !t.audio_plain ==> audio_pad(t) == "<|audio|>"@,
{
}

/// An image is cut into squares of `patch` by `patch`, of which `merge` by
/// `merge` become one vector; there are never fewer than sixteen. Sizes that
/// are not known are 224, 16 and 1.
pub proof fn law_image_vectors(image: usize, patch: usize, merge: usize)
    requires
        patch > 0,
        merge > 0,
    ensures
        ({
            let side = image as int / patch as int;
            let n = (side * side) / (merge * merge);
            image_tokens(Some(image), Some(patch), Some(merge)) == (if n < 16 {
                16
            } else {
                n
            })
        }),
        image_tokens(None, Some(patch), Some(merge)) == image_tokens(
            Some(224),
            Some(patch),
            Some(merge),
        ),
        image_tokens(Some(image), None, Some(merge)) == image_tokens(
            Some(image),
            Some(16),
            Some(merge),
        ),
        image_tokens(Some(image), Some(patch), None) == image_tokens(
            Some(image),
            Some(patch),
            Some(1),
        ),
        image_tokens(Some(image), Some(0), Some(merge)) == image_tokens(
            Some(image),
            Some(1),
            Some(merge),
        ),
        image_tokens(Some(image), Some(patch), Some(0)) == image_tokens(
            Some(image),
            Some(patch),
            Some(1),
        ),
        audio_tokens(Some(80)) == 1500,
        audio_tokens(Some(128)) == 750,
        audio_tokens(None) == 750,
{
}

/// Placeholders stand one behind the other, and there are as many as were
/// asked for.
pub proof fn law_repeated(t: Text, n: nat, k: int)
    requires
        0 <= k < n,
    ensures
        repeated(t, n).len() == n * t.len(),
        repeated(t, n).subrange(k * t.len(), (k + 1) * t.len()) == t,
        repeated(t, 0).len() == 0,
    decreases n,
{
    let before = repeated(t, (n - 1) as nat);
    let w = t.len() as int;
    if n == 1 {
        assert(repeated(t, 0).len() == 0);
        assert(repeated(t, 1) =~= t);
        assert(k == 0);
        assert(repeated(t, n).subrange(0, w) =~= t);
        assert(k * w == 0 && (k + 1) * w == w && n * w == w) by (nonlinear_arith)
            requires
                k == 0,
                n == 1,
        ;
    } else {
        law_repeated(t, (n - 1) as nat, 0);
        assert(n * w == (n - 1) * w + w) by (nonlinear_arith);
        assert((k + 1) * w == k * w + w) by (nonlinear_arith);
        assert(k * w >= 0) by (nonlinear_arith)
            requires
                k >= 0,
                w >= 0,
        ;
        if k == n - 1 {
            assert(repeated(t, n).subrange(k * w, (k + 1) * w) =~= t);
        } else {
            law_repeated(t, (n - 1) as nat, k);
            assert((k + 1) * w <= (n - 1) * w) by (nonlinear_arith)
                requires
                    k + 1 <= n - 1,
                    w >= 0,
            ;
            assert(repeated(t, n).subrange(k * w, (k + 1) * w) =~= before.subrange(
                k * w,
                (k + 1) * w,
            ));
        }
    }
}

/// The placeholders of an image stand between the vocabulary's own markers,
/// where it has both of a pair.
pub proof fn law_image_text(t: MediaTokens, n: nat)
    ensures
        t.vision ==> image_text(t, n) == "<|vision_start|>"@ + repeated(image_pad(t), n)
            + "<|vision_end|>"@,
        !t.vision && t.image_pair ==> image_text(t, n) == "<|image>"@ + repeated(image_pad(t), n)
            + "<image|>"@,
        !t.vision && !t.image_pair ==> image_text(t, n) == repeated(image_pad(t), n),
{
}

/// A mark in a prompt gives way to as many placeholders as its file has
/// vectors, if the model has an encoder for it; a prompt without marks, or for
/// a model without encoders, stays as it is.
pub proof fn law_marks_give_way(
    a: Text,
    b: Text,
    meta: ModelMeta<Text, Seq<bool>>,
    t: MediaTokens,
)
    ensures
        !meta.has_vision_encoder && !meta.has_audio_encoder ==> expanded(a, meta, t) == a,
        !(has(a, "<image>"@)) && !(has(a, "<audio>"@)) ==> expanded(a, meta, t) == a,
        meta.has_vision_encoder && !meta.has_audio_encoder && !(has(b, "<image>"@)) && (forall|
            j: int,
        |
            0 <= j < a.len() ==> !(#[trigger] stands_at(a + "<image>"@ + b, "<image>"@, j)))
            ==> expanded(a + "<image>"@ + b, meta, t) == a + image_text(
            t,
            image_tokens(
                meta.vision_image_size,
                meta.vision_patch_size,
                meta.spatial_merge_size,
            ) as nat,
        ) + b,
        meta.has_audio_encoder && !meta.has_vision_encoder && !(has(b, "<audio>"@)) && (forall|
            j: int,
        |
            0 <= j < a.len() ==> !(#[trigger] stands_at(a + "<audio>"@ + b, "<audio>"@, j)))
            ==> expanded(a + "<audio>"@ + b, meta, t) == a + repeated(
            audio_pad(t),
            audio_tokens(meta.audio_num_mel_bins) as nat,
        ) + b,
{
    reveal_strlit("<image>");
    reveal_strlit("<audio>");
    let image = image_text(
        t,
        image_tokens(
            meta.vision_image_size,
            meta.vision_patch_size,
            meta.spatial_merge_size,
        ) as nat,
    );
    let audio = repeated(audio_pad(t), audio_tokens(meta.audio_num_mel_bins) as nat);
    law_nothing_to_replace(a, "<image>"@, image);
    law_nothing_to_replace(a, "<audio>"@, audio);
    law_nothing_to_replace(b, "<image>"@, image);
    law_nothing_to_replace(b, "<audio>"@, audio);
    if forall|j: int|
        0 <= j < a.len() ==> !(#[trigger] stands_at(a + "<image>"@ + b, "<image>"@, j)) {
        law_first_is_replaced(a, "<image>"@, b, image);
    }
    if forall|j: int|
        0 <= j < a.len() ==> !(#[trigger] stands_at(a + "<audio>"@ + b, "<audio>"@, j)) {
        law_first_is_replaced(a, "<audio>"@, b, audio);
    }
}

/// Of a long conversation the last forty messages stay, or one more, in
/// order; what is cut comes from the front alone, but for the system prompt.
pub proof fn law_history_is_cut(messages: Seq<ChatMessage<Text>>)
    ensures
        messages.len() <= 41 ==> kept(messages) == messages,
        messages.len() > 41 && messages[0].role != "system"@ ==> kept(messages) == messages.skip(
            messages.len() - 40,
        ),
        messages.len() > 41 && messages[0].role == "system"@ && messages[messages.len() - 41].role
            != "system"@ ==> kept(messages) == seq![messages[0]] + messages.skip(
            messages.len() - 41,
        ),
        messages.len() > 41 && messages[0].role == "system"@ && messages[messages.len() - 41].role
            == "system"@ ==> kept(messages) == messages.skip(messages.len() - 41),
{
}

/// The paths that may be meant are the first word, the first two with a space
/// between them, and so on; none where a path stands in quotes.
pub proof fn law_path_candidates(rest: Text, parts: Seq<Text>, word: Text, i: int)
    ensures
        spaced(seq![word]) == word,
        parts.len() > 0 ==> spaced(parts.push(word)) == spaced(parts) + " "@ + word,
        quoted(rest) is None ==> path_candidates(rest).len() == words(rest).len(),
        quoted(rest) is None && 0 <= i < words(rest).len() ==> path_candidates(rest)[i] == spaced(
            words(rest).take(i + 1),
        ),
        quoted(rest) is Some ==> path_candidates(rest).len() == 0,
{
    assert(parts.push(word).drop_last() =~= parts);
}

} // verus!
