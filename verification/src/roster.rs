//! The character roster and glossary: the static tables the engine is
//! configured with, and the decoding of source-language speaker labels.
//!
//! The tables themselves are data injected at construction; this module
//! holds their shape and the lookup rules: an exact roster match, the
//! "voice of" suffix form, and the anonymous placeholder.

use vstd::prelude::*;

use crate::errors::TlError;
use crate::text::{has_sub_at, lemma_eq_concat, match_at, str_eq};

verus! {

/// One rostered character: source-language speaker label, its short form,
/// the target-language display name, a gender note, and alias pairs
/// `(source, target)`.
#[derive(Debug)]
pub struct Character {
    pub jpspeaker: String,
    pub jpshort: String,
    pub enspeaker: String,
    pub gender: String,
    pub aliases: Vec<(String, String)>,
}

/// A decoded speaker: either an opaque passthrough string or a roster entry,
/// by position.
#[derive(Debug)]
pub enum EnSpeaker {
    Str(String),
    Character(usize),
}

/// The roster the engine is configured with: characters, and glossary
/// entries `(trigger substring, descriptive line)`.
#[derive(Debug)]
pub struct Roster {
    pub characters: Vec<Character>,
    pub elements: Vec<(String, String)>,
}

/// What decoding a speaker label yields, at spec level: a roster entry, a
/// "voice of" form of one, the anonymous placeholder, or nothing.
pub enum Decoded {
    Chara(usize),
    Voice(usize),
    Mystery,
    Unknown,
}

/// The first roster entry from position `i` on that the label `s` names,
/// either exactly or in the "voice of" form.
pub open spec fn decode_from(cs: Seq<Character>, s: Seq<char>, i: int) -> Decoded
    decreases cs.len() - i,
    when 0 <= i <= cs.len()
{
    if i >= cs.len() {
        Decoded::Unknown
    } else if cs[i].jpspeaker@ == s {
        Decoded::Chara(i as usize)
    } else if s == cs[i].jpspeaker@ + "の声"@ {
        Decoded::Voice(i as usize)
    } else {
        decode_from(cs, s, i + 1)
    }
}

/// What a speaker label decodes to against a roster.
pub open spec fn decode_sp(cs: Seq<Character>, s: Seq<char>) -> Decoded {
    if s == "？？？"@ {
        Decoded::Mystery
    } else {
        decode_from(cs, s, 0)
    }
}

/// The characters of the decoded speaker's display text.
pub open spec fn decoded_text(cs: Seq<Character>, d: Decoded) -> Seq<char> {
    match d {
        Decoded::Chara(i) => cs[i as int].enspeaker@,
        Decoded::Voice(i) => cs[i as int].enspeaker@ + "'s voice"@,
        Decoded::Mystery => "???"@,
        Decoded::Unknown => Seq::empty(),
    }
}

/// The display text of a decoded speaker.
pub fn en_speaker_text(characters: &Vec<Character>, sp: &EnSpeaker) -> (r: String)
    requires
        (sp matches EnSpeaker::Character(i) ==> (i as int) < characters@.len()),
    ensures
        (sp matches EnSpeaker::Character(i) ==> r@ == characters@[i as int].enspeaker@),
        (sp matches EnSpeaker::Str(t) ==> r@ == t@),
{
    match sp {
        EnSpeaker::Str(t) => t.clone(),
        EnSpeaker::Character(i) => characters[*i].enspeaker.clone(),
    }
}

/// Decodes a source-language speaker label against the roster: the
/// anonymous placeholder becomes `"???"`, an exact roster match becomes
/// that entry, a label of the form `<entry>の声` becomes the entry's
/// display name with `'s voice` appended, and anything else is an
/// unrecognized speaker code, a fatal data-integrity error.
pub fn decode_jp_speaker(characters: &Vec<Character>, jpspeaker: &str) -> (r: Result<
    EnSpeaker,
    TlError,
>)
    ensures
        match r {
            Ok(sp) => match sp {
                EnSpeaker::Character(i) => decode_sp(characters@, jpspeaker@) == Decoded::Chara(i)
                    && (i as int) < characters@.len(),
                EnSpeaker::Str(t) => (decode_sp(characters@, jpspeaker@) is Mystery || decode_sp(
                    characters@,
                    jpspeaker@,
                ) is Voice) && t@ == decoded_text(characters@, decode_sp(characters@, jpspeaker@)),
            },
            Err(e) => decode_sp(characters@, jpspeaker@) is Unknown && (e matches
                TlError::UnknownSpeaker(u) && u@ == jpspeaker@),
        },
{
    if str_eq(jpspeaker, "？？？") {
        return Ok(EnSpeaker::Str(String::from_str("???")));
    }
    let slen = jpspeaker.unicode_len();
    let mut i: usize = 0;
    while i < characters.len()
        invariant
            slen == jpspeaker@.len(),
            i <= characters@.len(),
            jpspeaker@ != "？？？"@,
            decode_from(characters@, jpspeaker@, 0) == decode_from(characters@, jpspeaker@, i as int),
        decreases characters@.len() - i,
    {
        let c = &characters[i];
        if str_eq(c.jpspeaker.as_str(), jpspeaker) {
            return Ok(EnSpeaker::Character(i));
        }
        let jplen = c.jpspeaker.unicode_len();
        proof {
            reveal_strlit("の声");
            lemma_eq_concat(jpspeaker@, c.jpspeaker@, "の声"@);
        }
        if slen >= 2 && jplen == slen - 2 && match_at(jpspeaker, c.jpspeaker.as_str(), 0)
            && match_at(jpspeaker, "の声", slen - 2) {
            let voice = c.enspeaker.clone().concat("'s voice");
            return Ok(EnSpeaker::Str(voice));
        }
        proof {
            assert(jpspeaker@ != characters@[i as int].jpspeaker@ + "の声"@);
        }
        i += 1;
    }
    Err(TlError::UnknownSpeaker(jpspeaker.to_owned()))
}

} // verus!
