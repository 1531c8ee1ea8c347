//! The context-bounded translation engine's decisions.
//!
//! The outside calls — tokenizer, completion endpoint, relational store —
//! are performed by the caller, which runs the loop; every decision between
//! two such calls stands here with a contract: whether a line needs a call
//! at all, how the context window shrinks until the prompt fits the token
//! budget, what a completion must look like to be accepted, and what each
//! upsert writes.

use vstd::prelude::*;

use crate::errors::TlError;
use crate::prompt::{tag_sp, Seen, seen_views};
use crate::roster::{decode_jp_speaker, decode_sp, decoded_text, en_speaker_text, Character, Roster};
use crate::text::{has_sub_at, match_at, replace_all, replace_sp, str_eq, trim, trim_sp};

verus! {

/// The model's context window, in tokens.
pub const N_CTX: usize = 1024;

/// The part of the window reserved for the generated answer, in tokens.
pub const N_PREDICT: usize = 64;

/// The translation engine: the roster it was configured with.
#[derive(Debug)]
pub struct Translator {
    pub roster: Roster,
}

impl Translator {
    /// A new engine over the given roster and glossary.
    pub fn new(roster: Roster) -> (r: Result<Translator, TlError>)
        ensures
            (r matches Ok(t) && t.roster == roster),
    {
        Ok(Translator { roster })
    }
}

/// What a line asks for: a line that already has a translation only joins
/// the context window; one without needs the generation service.
pub enum LineStep {
    Absorb,
    Translate,
}

/// Decides whether a line needs a service call: one already translated is
/// never resubmitted.
pub fn classify_line(existing: &Option<String>) -> (r: LineStep)
    ensures
        (r is Absorb) == (existing is Some),
{
    match existing {
        Some(_) => LineStep::Absorb,
        None => LineStep::Translate,
    }
}

/// The name-placeholder substitution every incoming text goes through.
pub open spec fn prepared_sp(s: Seq<char>) -> Seq<char> {
    replace_sp(replace_sp(s, "#Name[1]"@, "玻ヰ璃"@), "#Name[2]"@, "ハイリ"@)
}

/// Replaces the two name placeholders by the protagonist's names.
pub fn prepare_text(s: &str) -> (r: String)
    ensures
        r@ == prepared_sp(s@),
{
    proof {
        reveal_strlit("#Name[1]");
        reveal_strlit("#Name[2]");
    }
    let t = replace_all(s, "#Name[1]", "玻ヰ璃");
    replace_all(t.as_str(), "#Name[2]", "ハイリ")
}

/// The view of an optional speaker label.
pub open spec fn opt_label(s: Option<String>) -> Option<Seq<char>> {
    match s {
        Some(x) => Some(x@),
        None => None,
    }
}

/// The context entry a line leaves behind: the raw label paired with its
/// decoded display text, when the line had a speaker.
pub open spec fn context_entry(
    cs: Seq<Character>,
    spk: Option<Seq<char>>,
    jp: Seq<char>,
    en: Seq<char>,
) -> (Option<(Seq<char>, Seq<char>)>, Seq<char>, Seq<char>) {
    (
        match spk {
            None => None,
            Some(s) => Some((s, decoded_text(cs, decode_sp(cs, s)))),
        },
        jp,
        en,
    )
}

/// The speaker prefix of a line: `[decoded name]: `, or nothing when the
/// line has no speaker.
pub open spec fn prefix_sp(cs: Seq<Character>, spk: Option<Seq<char>>) -> Seq<char> {
    match spk {
        None => Seq::<char>::empty(),
        Some(s) => tag_sp(decoded_text(cs, decode_sp(cs, s))),
    }
}

impl Translator {
    /// The `[name]: ` prefix the generated answer must start with, decoded
    /// from the line's speaker label. An unrecognized label is a fatal
    /// error.
    pub fn speaker_prefix(&self, speaker: &Option<String>) -> (r: Result<String, TlError>)
        ensures
            match r {
                Ok(p) => !(decode_label(self.roster.characters@, speaker) is Unknown) && p@
                    == prefix_sp(
                    self.roster.characters@,
                    match speaker {
                        Some(s) => Some(s@),
                        None => None,
                    },
                ),
                Err(e) => (decode_label(self.roster.characters@, speaker) is Unknown) && (speaker
                    matches Some(s) && (e matches TlError::UnknownSpeaker(u) && u@ == s@)),
            },
    {
        match speaker {
            None => Ok(String::new()),
            Some(s) => match decode_jp_speaker(&self.roster.characters, s.as_str()) {
                Ok(sp) => {
                    let name = en_speaker_text(&self.roster.characters, &sp);
                    Ok(crate::prompt::speaker_tag(name.as_str()))
                },
                Err(e) => Err(e),
            },
        }
    }

    /// Appends a line and its translation to the rolling context, pairing
    /// the speaker label with its decoded display text. An unrecognized
    /// label is a fatal error and leaves the context alone.
    pub fn push_context(
        &self,
        seen: &mut Vec<Seen>,
        speaker: Option<String>,
        jpline: String,
        enline: String,
    ) -> (r: Result<(), TlError>)
        ensures
            match r {
                Ok(_) => !(decode_label(self.roster.characters@, &speaker) is Unknown)
                    && seen_views(final(seen)@) == seen_views(old(seen)@).push(
                    context_entry(self.roster.characters@, opt_label(speaker), jpline@, enline@),
                ),
                Err(e) => (decode_label(self.roster.characters@, &speaker) is Unknown) && (speaker
                    matches Some(s) && (e matches TlError::UnknownSpeaker(u) && u@ == s@))
                    && final(seen)@ == old(seen)@,
            },
    {
        let pair = match &speaker {
            None => None,
            Some(s) => match decode_jp_speaker(&self.roster.characters, s.as_str()) {
                Ok(sp) => {
                    let name = en_speaker_text(&self.roster.characters, &sp);
                    Some((s.clone(), name))
                },
                Err(e) => {
                    return Err(e);
                },
            },
        };
        let entry = Seen { speaker: pair, jpline, enline };
        let ghost old_views = seen_views(seen@);
        seen.push(entry);
        proof {
            assert(seen_views(seen@) =~= old_views.push(
                context_entry(self.roster.characters@, opt_label(speaker), jpline@, enline@),
            ));
        }
        Ok(())
    }
}

/// What an optional speaker label decodes to; `Unknown` only for a present,
/// unrecognized label.
pub open spec fn decode_label(cs: Seq<Character>, speaker: &Option<String>) -> crate::roster::Decoded {
    match speaker {
        None => crate::roster::Decoded::Mystery,
        Some(s) => decode_sp(cs, s@),
    }
}

// --- The context-fit loop's step ---

/// What one round of the fit loop decided.
pub enum FitOutcome {
    /// The prompt fits the budget: submit it.
    Fits,
    /// The oldest entries were evicted: rebuild the prompt and try again.
    Evicted,
    /// The context is already empty and the prompt still does not fit.
    Exhausted,
}

/// How many of the oldest entries one round evicts: a sixteenth of the
/// window, at least one.
pub open spec fn evict_count(len: nat) -> nat {
    if len / 16 >= 1 {
        len / 16
    } else {
        1
    }
}

/// One round of the context-fit loop: if the tokenized prompt exceeds the
/// budget, the oldest `max(1, len/16)` entries leave the window, strictly
/// shrinking it; with the window already empty the loop is done either way.
pub fn fit_step(seen: &mut Vec<Seen>, token_count: usize) -> (r: FitOutcome)
    ensures
        token_count <= N_CTX - N_PREDICT ==> r is Fits && final(seen)@ == old(seen)@,
        token_count > N_CTX - N_PREDICT && old(seen)@.len() == 0 ==> r is Exhausted
            && final(seen)@ == old(seen)@,
        token_count > N_CTX - N_PREDICT && old(seen)@.len() > 0 ==> r is Evicted && seen_views(
            final(seen)@,
        ) == seen_views(old(seen)@).skip(evict_count(old(seen)@.len()) as int)
            && final(seen)@.len() < old(seen)@.len(),
{
    if token_count <= N_CTX - N_PREDICT {
        return FitOutcome::Fits;
    }
    let len = seen.len();
    if len == 0 {
        return FitOutcome::Exhausted;
    }
    let md = if len / 16 >= 1 {
        len / 16
    } else {
        1
    };
    let mut rest: Vec<Seen> = Vec::new();
    let mut i: usize = md;
    while i < len
        invariant
            md <= len,
            len == seen@.len(),
            md <= i <= len,
            rest@.len() == i - md,
            forall|j: int| 0 <= j < rest@.len() ==> ((#[trigger] rest@[j])@) == seen@[md + j]@,
        decreases len - i,
    {
        let c = seen[i].clone();
        rest.push(c);
        i += 1;
    }
    let ghost old_views = seen_views(seen@);
    *seen = rest;
    proof {
        assert(seen_views(seen@) =~= old_views.skip(md as int));
    }
    FitOutcome::Evicted
}

/// How many rounds the fit loop can take at worst from a window of `len`
/// entries before the window is empty.
pub open spec fn fit_rounds(len: nat) -> nat
    decreases len,
{
    if len == 0 {
        0
    } else {
        1 + fit_rounds((len - evict_count(len)) as nat)
    }
}

/// The context-fit loop terminates for any input: every round evicts at
/// least one entry, so after at most `len` rounds the window is empty, and
/// the loop ends with a prompt within budget or an empty context.
pub proof fn lemma_fit_loop_terminates(len: nat)
    ensures
        fit_rounds(len) <= len,
        len > 0 ==> 1 <= evict_count(len) <= len,
    decreases len,
{
    if len > 0 {
        assert(len / 16 <= len) by (nonlinear_arith);
        lemma_fit_loop_terminates((len - evict_count(len)) as nat);
    }
}

// --- Submitting and accepting completions ---

/// The decoding grammar forced on the service: the answer must start with
/// the expected speaker prefix.
pub open spec fn grammar_sp(prefix: Seq<char>) -> Seq<char> {
    ("root ::= \""@ + prefix) + "\" [^\\x00]*"@
}

/// Builds the decoding grammar for a speaker prefix.
pub fn build_grammar(prefix: &str) -> (r: String)
    ensures
        r@ == grammar_sp(prefix@),
{
    String::from_str("root ::= \"").concat(prefix).concat("\" [^\\x00]*")
}

/// The accepted translation: the completion with the forced speaker prefix
/// stripped and surrounding whitespace trimmed.
pub open spec fn stripped_sp(content: Seq<char>, prefix: Seq<char>) -> Seq<char> {
    trim_sp(content.skip(prefix.len() as int))
}

/// Judges a completion. A stop that is not a natural end-of-sequence is a
/// generation cutoff, a series-scoped failure carrying the partial text; an
/// answer that does not start with the forced prefix is a malformed
/// response; otherwise the translation is the answer without the prefix,
/// trimmed.
pub fn accept_completion(content: String, stop_type: &str, prefix: &str) -> (r: Result<
    String,
    TlError,
>)
    ensures
        match r {
            Ok(t) => stop_type@ == "eos"@ && has_sub_at(content@, prefix@, 0) && t@ == stripped_sp(
                content@,
                prefix@,
            ),
            Err(e) => match e {
                TlError::GenerationCutoff(c) => stop_type@ != "eos"@ && c@ == content@,
                TlError::MalformedResponse => stop_type@ == "eos"@ && !has_sub_at(
                    content@,
                    prefix@,
                    0,
                ),
                _ => false,
            },
        },
{
    if !str_eq(stop_type, "eos") {
        return Err(TlError::GenerationCutoff(content));
    }
    let n = content.as_str().unicode_len();
    let m = prefix.unicode_len();
    if m > n {
        return Err(TlError::MalformedResponse);
    }
    if !match_at(content.as_str(), prefix, 0) {
        return Err(TlError::MalformedResponse);
    }
    let rest = content.as_str().substring_char(m, n);
    proof {
        assert(rest@ =~= content@.skip(m as int));
    }
    Ok(trim(rest))
}

// --- The persistence model ---

/// One row written for a translated line.
#[derive(Debug)]
pub struct UpsertRow {
    pub script_id: u16,
    pub address: u32,
    pub tl_body: String,
    pub tl_variant: Option<String>,
}

impl View for UpsertRow {
    type V = (u16, u32, Seq<char>, Option<Seq<char>>);

    open spec fn view(&self) -> (u16, u32, Seq<char>, Option<Seq<char>>) {
        (
            self.script_id,
            self.address,
            self.tl_body@,
            match self.tl_variant {
                Some(v) => Some(v@),
                None => None,
            },
        )
    }
}

/// What an upsert does to the store: the row keyed `(script id, address)`
/// is written, replacing any previous row under that key.
pub open spec fn store_upsert(
    m: Map<(u16, u32), (Seq<char>, Option<Seq<char>>)>,
    row: (u16, u32, Seq<char>, Option<Seq<char>>),
) -> Map<(u16, u32), (Seq<char>, Option<Seq<char>>)> {
    m.insert((row.0, row.1), (row.2, row.3))
}

/// Upserting the same line twice with identical inputs leaves exactly the
/// row the first write stored: the second write overwrites it and the store
/// is unchanged.
pub proof fn lemma_upsert_idempotent(
    m: Map<(u16, u32), (Seq<char>, Option<Seq<char>>)>,
    row: (u16, u32, Seq<char>, Option<Seq<char>>),
)
    ensures
        store_upsert(store_upsert(m, row), row) == store_upsert(m, row),
{
    assert(store_upsert(store_upsert(m, row), row) =~= store_upsert(m, row));
}

} // verus!
