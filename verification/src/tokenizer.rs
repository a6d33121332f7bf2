//! Text to token ids and back.
use vstd::prelude::*;
use vstd::utf8::encode_utf8;
use crate::json::{field, Json};
use crate::text::{texts, Text};
use crate::tokenizer_doc::{
    added_sound, all_kept, are_joining, are_parts_once, are_splitters_sound, are_templates_sound,
    bare, byte_len, document, does_normalize, has_no_white, is_added_sound, is_bare, is_loadable,
    is_untouched, join_steps, joins, lacks, law_bare_document_loads, law_bare_document_splits,
    loads, model_sound, normalizers, parts_once, read_document, read_join_steps, read_normal_steps, splits, splitters_sound, templates_sound,
    untouched, JoinStep, NormalStep,
};

verus! {

/// `tokenizers::Tokenizer`, carried through unopened.
#[verifier::external_type_specification]
#[verifier::external_body]
pub struct ExTokenizer(tokenizers::Tokenizer);

/// The JSON document that a tokenizer was made from.
pub uninterp spec fn made_from(t: tokenizers::Tokenizer) -> Seq<u8>;

/// Whether a JSON document describes a tokenizer.
pub uninterp spec fn describes_tokenizer(json: Seq<u8>) -> bool;

/// The id of a token in the vocabulary of the tokenizer that a JSON document
/// describes.
pub uninterp spec fn id_of_token(json: Seq<u8>, token: Seq<char>) -> Option<u32>;

/// The size of that vocabulary, with the tokens that were added to it.
pub uninterp spec fn size_of_vocabulary(json: Seq<u8>) -> usize;

/// What splitting a text with that tokenizer may come to: the token ids, or
/// nothing where it fails. A tokenizer that drops merges at random has several
/// outcomes for one text.
pub uninterp spec fn possible_ids(json: Seq<u8>, text: Seq<char>, special: bool) -> Set<
    Option<Seq<u32>>,
>;

/// What putting tokens together with that tokenizer may come to: the text, or
/// nothing where it fails. A vocabulary that gives one id to two tokens has
/// several outcomes for one list of ids.
pub uninterp spec fn possible_texts(json: Seq<u8>, tokens: Seq<u32>, skip: bool) -> Set<
    Option<Seq<char>>,
>;

/// How a text is cut that comes to too many tokens: to how many, and how many
/// of them the pieces share.
pub uninterp spec fn truncation_of(json: Seq<u8>) -> Option<(usize, usize)>;

/// How many special tokens are put around one text, where something puts any.
pub uninterp spec fn added_around(json: Seq<u8>) -> Option<usize>;

/// How a text is filled up that comes to too few tokens: to a fixed number of
/// them, and to a multiple of a number.
pub uninterp spec fn padding_of(json: Seq<u8>) -> Option<(Option<usize>, Option<usize>)>;

/// The token that a tokenizer writes for an id, if it knows the id.
pub uninterp spec fn text_of(t: tokenizers::Tokenizer, id: u32) -> Option<Seq<char>>;

/// Whether a token only steers the model.
pub uninterp spec fn special_token(t: tokenizers::Tokenizer, token: Seq<char>) -> bool;

/// Makes a tokenizer.
///
/// Trusted: `tokenizers::Tokenizer::from_bytes` reads a JSON document, and
/// whether it succeeds depends on the document alone. Documents that it fails
/// on without an answer are left out: broken JSON, merges that make tokens the
/// model has no room for or cut a character apart, tokens with scores that are
/// too long for the tree they are held in, tables of character replacements
/// that are not all there, and added tokens that are handed to normalizers which
/// cannot take them. So are documents that write the model or the normalizer
/// twice, since each is built.
#[verifier::external_body]
fn load_tokenizer(json: &[u8]) -> (r: Result<tokenizers::Tokenizer, String>)
    requires
        document(json@) matches Some(j) && parts_once(json@) && loads(j),
    ensures
        match r {
            Ok(t) => describes_tokenizer(json@) && made_from(t) == json@,
            Err(_) => !describes_tokenizer(json@),
        },
{
    tokenizers::Tokenizer::from_bytes(json).map_err(|e| e.to_string())
}

/// How long texts are cut.
///
/// Trusted: `tokenizers::Tokenizer::get_truncation` gives what the document
/// says: the greatest number of tokens, and the stride.
#[verifier::external_body]
fn read_truncation(t: &tokenizers::Tokenizer) -> (r: Option<(usize, usize)>)
    ensures
        r == truncation_of(made_from(*t)),
{
    t.get_truncation().map(|p| (p.max_length, p.stride))
}

/// How many special tokens are put around one text.
///
/// Trusted: `tokenizers::PostProcessor::added_tokens` of the post-processor that
/// `tokenizers::Tokenizer::get_post_processor` hands out, where there is one,
/// counts what the document lists.
#[verifier::external_body]
fn count_added(t: &tokenizers::Tokenizer) -> (n: Option<usize>)
    ensures
        n == added_around(made_from(*t)),
{
    t.get_post_processor().map(|p| tokenizers::PostProcessor::added_tokens(p, false))
}

/// How short texts are filled up.
///
/// Trusted: `tokenizers::Tokenizer::get_padding` gives what the document says.
#[verifier::external_body]
fn read_padding(t: &tokenizers::Tokenizer) -> (r: Option<(Option<usize>, Option<usize>)>)
    ensures
        r == padding_of(made_from(*t)),
{
    let params = t.get_padding()?;
    let fixed = match params.strategy {
        tokenizers::PaddingStrategy::BatchLongest => None,
        tokenizers::PaddingStrategy::Fixed(n) => Some(n),
    };
    Some((fixed, params.pad_to_multiple_of))
}

/// The token of an id.
///
/// Trusted: `tokenizers::Tokenizer::id_to_token` finds the token that
/// `tokenizers::Tokenizer::decode` writes for an id.
#[verifier::external_body]
fn find_text(t: &tokenizers::Tokenizer, id: u32) -> (r: Option<String>)
    ensures
        match r {
            Some(s) => text_of(*t, id) == Some(s@),
            None => text_of(*t, id) is None,
        },
{
    t.id_to_token(id)
}

/// Whether a token only steers the model.
///
/// Trusted: `AddedVocabulary::is_special_token` of the added tokens that
/// `tokenizers::Tokenizer::get_added_vocabulary` hands out: the same test by
/// which `tokenizers::Tokenizer::decode` leaves tokens out.
#[verifier::external_body]
fn is_special(t: &tokenizers::Tokenizer, token: &str) -> (b: bool)
    ensures
        b == special_token(*t, token@),
{
    t.get_added_vocabulary().is_special_token(token)
}

/// The number of tokens that texts are filled up to at most.
pub const MAX_PADDED: usize = 0x100_0000;

/// Cutting leaves room for the special tokens, and the pieces share less than
/// all of their tokens, or there is nothing to cut: a text does not come to more
/// tokens than `most_tokens`, where that is known.
pub open spec fn truncation_sound(
    truncation: Option<(usize, usize)>,
    added: Option<usize>,
    special: bool,
    most_tokens: Option<nat>,
) -> bool {
    match truncation {
        Some((most, stride)) => {
            let left = match added {
                Some(n) if special => most - n,
                _ => most as int,
            };
            left == 0 || stride < left || (most_tokens matches Some(n) && n <= left)
        },
        None => true,
    }
}

/// Filling up stays within what can be held.
pub open spec fn padding_sound(padding: Option<(Option<usize>, Option<usize>)>) -> bool {
    match padding {
        Some((fixed, multiple)) => {
            &&& fixed matches Some(n) ==> n <= MAX_PADDED
            &&& multiple matches Some(n) ==> n <= MAX_PADDED
        },
        None => true,
    }
}

/// How many tokens a text comes to at most: one for each of its bytes, where it
/// is handed to the model as it is.
pub open spec fn tokens_at_most(j: Json, text: Text) -> Option<nat> {
    if untouched(j) {
        Some(byte_len(text))
    } else {
        None
    }
}

/// A text can be split with the tokenizer that a document describes.
pub open spec fn splitting(json: Seq<u8>, text: Text, special: bool) -> bool {
    &&& document(json) matches Some(j) && splits(j, text, special) && truncation_sound(
        truncation_of(json),
        added_around(json),
        special,
        tokens_at_most(j, text),
    )
    &&& padding_sound(padding_of(json))
}

/// What splitting a text may come to. It fails where the tokenizer is not fit
/// for it.
pub open spec fn encodings(json: Seq<u8>, text: Text, special: bool) -> Set<Option<Seq<u32>>> {
    if splitting(json, text, special) {
        possible_ids(json, text, special)
    } else {
        set![None]
    }
}

/// The token of an id, where it is known and `skip` does not leave it out as one
/// that only steers the model.
pub open spec fn shown_token(t: tokenizers::Tokenizer, id: u32, skip: bool) -> Option<Text> {
    match text_of(t, id) {
        Some(s) => if skip && special_token(t, s) {
            None
        } else {
            Some(s)
        },
        None => None,
    }
}

/// The tokens of ids, without those that are left out.
pub open spec fn shown(t: tokenizers::Tokenizer, ids: Seq<u32>, skip: bool) -> Seq<Text>
    decreases ids.len(),
{
    if ids.len() == 0 {
        Seq::empty()
    } else {
        let before = shown(t, ids.drop_last(), skip);
        match shown_token(t, ids.last(), skip) {
            Some(s) => before.push(s),
            None => before,
        }
    }
}

/// Tokens can be put together with a tokenizer.
pub open spec fn joining(t: tokenizers::Tokenizer, tokens: Seq<u32>, skip: bool) -> bool {
    document(made_from(t)) matches Some(j) && join_steps(j) matches Some(steps) && joins(
        steps,
        shown(t, tokens, skip),
    )
}

/// Looks a token up.
///
/// Trusted: `tokenizers::Tokenizer::token_to_id` looks a token up among the
/// added tokens and in the vocabulary, both of which the tokenizer has from the
/// document it was made from.
#[verifier::external_body]
fn look_up(t: &tokenizers::Tokenizer, token: &str) -> (r: Option<u32>)
    ensures
        r == id_of_token(made_from(*t), token@),
{
    t.token_to_id(token)
}

/// Counts the vocabulary.
///
/// Trusted: `tokenizers::Tokenizer::get_vocab_size`, called for the vocabulary
/// with the added tokens, counts what the tokenizer has from the document it
/// was made from.
#[verifier::external_body]
fn count_vocabulary(t: &tokenizers::Tokenizer, with_added: bool) -> (n: usize)
    requires
        with_added,
    ensures
        n == size_of_vocabulary(made_from(*t)),
{
    t.get_vocab_size(with_added)
}

/// Splits a text into tokens.
///
/// Trusted: `tokenizers::Tokenizer::encode` and `Encoding::get_ids`. What the
/// outcomes may be depends on the tokenizer and the arguments alone. Which of
/// them comes is not stated, since a tokenizer may drop merges at random.
/// Texts that the tokenizer fails on without an answer are left out.
#[verifier::external_body]
fn encode_text(t: &tokenizers::Tokenizer, text: &str, special: bool) -> (r: Result<
    Vec<u32>,
    String,
>)
    requires
        splitting(made_from(*t), text@, special),
    ensures
        match r {
            Ok(ids) => possible_ids(made_from(*t), text@, special).contains(Some(ids@)),
            Err(_) => possible_ids(made_from(*t), text@, special).contains(None),
        },
{
    t.encode(text, special).map(|e| e.get_ids().to_vec()).map_err(|e| e.to_string())
}

/// Puts tokens together again.
///
/// Trusted: `tokenizers::Tokenizer::decode`. What the outcomes may be depends
/// on the tokenizer and the arguments alone. Which of them comes is not stated:
/// a vocabulary may give one id to two tokens, and which of them is written
/// then differs from run to run. Tokenizers that fail without an answer are
/// left out.
#[verifier::external_body]
fn decode_tokens(t: &tokenizers::Tokenizer, tokens: &[u32], skip: bool) -> (r: Result<
    String,
    String,
>)
    requires
        joining(*t, tokens@, skip),
    ensures
        match r {
            Ok(text) => possible_texts(made_from(*t), tokens@, skip).contains(Some(text@)),
            Err(_) => possible_texts(made_from(*t), tokens@, skip).contains(None),
        },
{
    t.decode(tokens, skip).map_err(|e| e.to_string())
}

/// A model's tokenizer.
pub struct LlmTokenizer {
    tokenizer: tokenizers::Tokenizer,
    /// What the normalizers do, where that can be followed.
    normal: Option<Vec<NormalStep>>,
    /// Whether no two added tokens can lay claim to the same white space.
    added: bool,
    /// Whether there is no normalizer.
    bare: bool,
    /// Whether texts are handed to the model as they are.
    untouched: bool,
    /// Whether the parts that split a text can do so.
    splitters: bool,
    /// Whether the templates are sound with special tokens, and without.
    templates_special: bool,
    templates_bare: bool,
    /// How tokens are put together, where that can be followed.
    steps: Option<Vec<JoinStep>>,
}

impl LlmTokenizer {
    /// The JSON document that the tokenizer was made from.
    pub closed spec fn json(self) -> Seq<u8> {
        made_from(self.tokenizer)
    }

    /// What is kept of the document agrees with it.
    #[verifier::type_invariant]
    spec fn agrees(self) -> bool {
        document(made_from(self.tokenizer)) matches Some(j) && {
            &&& match self.normal {
                Some(v) => normalizers(j) matches Some(parts) && all_kept(v@, parts),
                None => normalizers(j) is None,
            }
            &&& self.added == added_sound(j)
            &&& self.bare == bare(j)
            &&& self.untouched == untouched(j)
            &&& self.splitters == splitters_sound(j)
            &&& self.templates_special == templates_sound(j, true)
            &&& self.templates_bare == templates_sound(j, false)
            &&& match self.steps {
                Some(v) => join_steps(j) == Some(v@),
                None => join_steps(j) is None,
            }
        }
    }

    /// Tokens can be put together with the tokenizer.
    pub closed spec fn joins_tokens(self, tokens: Seq<u32>, skip: bool) -> bool {
        joining(self.tokenizer, tokens, skip)
    }

    /// What putting tokens together may come to. It fails where the tokenizer
    /// is not fit for them.
    pub open spec fn decodings(self, tokens: Seq<u32>, skip: bool) -> Set<Option<Text>> {
        if self.joins_tokens(tokens, skip) {
            possible_texts(self.json(), tokens, skip)
        } else {
            set![None]
        }
    }

    /// `text` may be what tokens read as, without those that only steer the
    /// model: a text that they decode to, or `fallback` where decoding fails.
    pub open spec fn reads_as(self, tokens: Seq<u32>, fallback: Text, text: Text) -> bool {
        let outcomes = self.decodings(tokens, true);
        outcomes.contains(Some(text)) || (outcomes.contains(None) && text == fallback)
    }

    /// Makes a tokenizer from a JSON document.
    pub fn from_bytes(bytes: &[u8]) -> (r: Result<Self, String>)
        ensures
            match r {
                Ok(t) => makes_tokenizer(bytes@) && t.json() == bytes@,
                Err(_) => !makes_tokenizer(bytes@),
            },
    {
        let j = match read_document(bytes) {
            Some(j) => j,
            None => return Err("not a JSON document".to_string()),
        };
        if !are_parts_once(bytes) || !is_loadable(&j) {
            return Err("the document does not fit together".to_string());
        }
        match load_tokenizer(bytes) {
            Ok(tokenizer) => Ok(
                LlmTokenizer {
                    tokenizer,
                    normal: read_normal_steps(&j),
                    added: is_added_sound(&j),
                    bare: is_bare(&j),
                    untouched: is_untouched(&j),
                    splitters: are_splitters_sound(&j),
                    templates_special: are_templates_sound(&j, true),
                    templates_bare: are_templates_sound(&j, false),
                    steps: read_join_steps(&j),
                },
            ),
            Err(e) => Err(e),
        }
    }

    /// Makes a tokenizer from the text of a JSON document.
    pub fn from_str(json: &str) -> (r: Result<Self, String>)
        ensures
            match r {
                Ok(t) => makes_tokenizer(encode_utf8(json@)) && t.json() == encode_utf8(json@),
                Err(_) => !makes_tokenizer(encode_utf8(json@)),
            },
    {
        LlmTokenizer::from_bytes(json.as_bytes())
    }

    /// The token ids of a text. Which of its outcomes comes is not stated:
    /// splitting may be random where the tokenizer asks for it.
    pub fn encode(&self, text: &str, add_special_tokens: bool) -> (r: Result<Vec<u32>, String>)
        ensures
            match r {
                Ok(ids) => encodings(self.json(), text@, add_special_tokens).contains(Some(ids@)),
                Err(_) => encodings(self.json(), text@, add_special_tokens).contains(None),
            },
            r is Ok ==> splitting(self.json(), text@, add_special_tokens),
    {
        proof {
            use_type_invariant(self);
        }
        let truncation = match read_truncation(&self.tokenizer) {
            Some((most, stride)) => {
                let added: usize = match count_added(&self.tokenizer) {
                    Some(n) => if add_special_tokens {
                        n
                    } else {
                        0
                    },
                    None => 0,
                };
                most == added || (most > added && stride < most - added) || (self.untouched && most
                    > added && text.as_bytes().len() <= most - added)
            },
            None => true,
        };
        let padding = match read_padding(&self.tokenizer) {
            Some((fixed, multiple)) => within(fixed) && within(multiple),
            None => true,
        };
        let templates: bool = if add_special_tokens {
            self.templates_special
        } else {
            self.templates_bare
        };
        let added = self.added || (self.bare && has_no_white(text));
        let normal: bool = match &self.normal {
            Some(steps) => does_normalize(
                steps,
                text,
                Ghost(normalizers(document(made_from(self.tokenizer))->0)->0),
            ),
            None => false,
        };
        if normal && added && self.splitters && templates && truncation && padding {
            encode_text(&self.tokenizer, text, add_special_tokens)
        } else {
            Err("the tokenizer's settings contradict each other".to_string())
        }
    }

    /// The token of an id, where it is not left out.
    fn show(&self, id: u32, skip: bool) -> (r: Option<String>)
        ensures
            match r {
                Some(s) => shown_token(self.tokenizer, id, skip) == Some(s@),
                None => shown_token(self.tokenizer, id, skip) is None,
            },
    {
        match find_text(&self.tokenizer, id) {
            Some(s) => if skip && is_special(&self.tokenizer, &s) {
                None
            } else {
                Some(s)
            },
            None => None,
        }
    }

    /// The tokens of ids, without those that are left out.
    fn show_all(&self, ids: &[u32], skip: bool) -> (v: Vec<String>)
        ensures
            texts(v@) == shown(self.tokenizer, ids@, skip),
    {
        let mut out: Vec<String> = Vec::new();
        let mut i: usize = 0;
        assert(texts(out@) =~= shown(self.tokenizer, ids@.take(0), skip));
        while i < ids.len()
            invariant
                i <= ids@.len(),
                texts(out@) == shown(self.tokenizer, ids@.take(i as int), skip),
            decreases ids@.len() - i,
        {
            let ghost front = ids@.take(i + 1);
            assert(front.drop_last() =~= ids@.take(i as int));
            let ghost before = out@;
            match self.show(ids[i], skip) {
                Some(s) => {
                    out.push(s);
                    assert(texts(out@) =~= texts(before).push(s@));
                },
                None => {},
            }
            i += 1;
        }
        assert(ids@.take(i as int) =~= ids@);
        out
    }

    /// The text of token ids. Which of its outcomes comes is not stated: a
    /// vocabulary may be ambiguous.
    pub fn decode(&self, tokens: &[u32], skip_special_tokens: bool) -> (r: Result<String, String>)
        ensures
            match r {
                Ok(text) => self.decodings(tokens@, skip_special_tokens).contains(Some(text@)),
                Err(_) => self.decodings(tokens@, skip_special_tokens).contains(None),
            },
            r is Ok ==> self.joins_tokens(tokens@, skip_special_tokens),
    {
        proof {
            use_type_invariant(self);
        }
        let fit: bool = match &self.steps {
            Some(steps) => are_joining(steps, &self.show_all(tokens, skip_special_tokens)),
            None => false,
        };
        if fit {
            decode_tokens(&self.tokenizer, tokens, skip_special_tokens)
        } else {
            Err("the tokenizer's decoder cannot take these tokens".to_string())
        }
    }

    /// The text of token ids, without those that only steer the model, or
    /// `fallback` where they cannot be decoded.
    pub fn decode_or(&self, tokens: &[u32], fallback: &str) -> (text: String)
        ensures
            self.reads_as(tokens@, fallback@, text@),
    {
        match self.decode(tokens, true) {
            Ok(text) => text,
            Err(_) => fallback.to_string(),
        }
    }

    /// The size of the vocabulary.
    pub fn vocab_size(&self) -> (n: usize)
        ensures
            n == size_of_vocabulary(self.json()),
    {
        count_vocabulary(&self.tokenizer, true)
    }

    /// The id of a token, if the vocabulary has it.
    pub fn token_to_id(&self, token: &str) -> (r: Option<u32>)
        ensures
            r == id_of_token(self.json(), token@),
    {
        look_up(&self.tokenizer, token)
    }
}

/// A tokenizer is made of a document: it is JSON, the model and the normalizer
/// are written once, the parts fit together, and it describes a tokenizer.
pub open spec fn makes_tokenizer(json: Seq<u8>) -> bool {
    document(json) matches Some(j) && parts_once(json) && loads(j) && describes_tokenizer(json)
}

fn within(n: Option<usize>) -> (b: bool)
    ensures
        b == (n matches Some(k) ==> k <= MAX_PADDED),
{
    match n {
        Some(k) => k <= MAX_PADDED,
        None => true,
    }
}

/// A text that can be split comes to what the tokenizer makes of it, with the
/// special tokens if they are asked for; one that cannot comes to nothing.
pub proof fn law_encodings(json: Seq<u8>, text: Text, special: bool)
    ensures
        splitting(json, text, special) ==> encodings(json, text, special) == possible_ids(
            json,
            text,
            special,
        ),
        !splitting(json, text, special) ==> encodings(json, text, special) == set![
            None::<Seq<u32>>,
        ],
{
}

/// A plain tokenizer, without parts around its model and without truncation and
/// padding, splits every text.
pub proof fn law_plain_tokenizer_splits(json: Seq<u8>, j: Json, text: Text, special: bool)
    requires
        document(json) == Some(j),
        lacks(j, "normalizer"@),
        lacks(j, "pre_tokenizer"@),
        lacks(j, "post_processor"@),
        lacks(j, "added_tokens"@),
        truncation_of(json) is None,
        padding_of(json) is None,
    ensures
        splitting(json, text, special),
        encodings(json, text, special) == possible_ids(json, text, special),
{
    law_bare_document_splits(j, text, special);
}

/// Tokens are shown in their order, each by its text; those that only steer the
/// model are left out if they are to be skipped, and unknown ones always.
pub proof fn law_shown(t: tokenizers::Tokenizer, ids: Seq<u32>, id: u32, skip: bool)
    ensures
        shown(t, seq![], skip) == Seq::<Text>::empty(),
        text_of(t, id) is None ==> shown(t, ids.push(id), skip) == shown(t, ids, skip),
        text_of(t, id) matches Some(s) ==> (skip && special_token(t, s) ==> shown(
            t,
            ids.push(id),
            skip,
        ) == shown(t, ids, skip)),
        text_of(t, id) matches Some(s) ==> (!skip || !special_token(t, s) ==> shown(
            t,
            ids.push(id),
            skip,
        ) == shown(t, ids, skip).push(s)),
{
    assert(ids.push(id).drop_last() =~= ids);
}

/// Tokens that can be put together come to what the tokenizer makes of them;
/// what they read as is that, or the text that stands in where it fails.
pub proof fn law_decodings(t: LlmTokenizer, tokens: Seq<u32>, skip: bool, fallback: Text, text: Text)
    ensures
        t.joins_tokens(tokens, skip) ==> t.decodings(tokens, skip) == possible_texts(
            t.json(),
            tokens,
            skip,
        ),
        !t.joins_tokens(tokens, skip) ==> t.decodings(tokens, skip) == set![None::<Text>],
        t.reads_as(tokens, fallback, text) <==> t.decodings(tokens, true).contains(Some(text)) || (
        t.decodings(tokens, true).contains(None) && text == fallback),
{
}

/// A tokenizer is made of a document that is JSON, writes its model once, has a
/// sound model and no normalizer, and describes a tokenizer.
pub proof fn law_plain_tokenizer_is_made(json: Seq<u8>, j: Json)
    requires
        document(json) == Some(j),
        parts_once(json),
        lacks(j, "normalizer"@),
        model_sound(field(j, "model"@)),
    ensures
        makes_tokenizer(json) <==> describes_tokenizer(json),
{
    law_bare_document_loads(j);
}

} // verus!
