//! Prompt assembly: the rolling-context entries, the dynamic metadata
//! header, and the full prompt handed to the generation service.
//!
//! Every rendering function is pinned to a spec-level character sequence, so
//! the prompt a caller sends is exactly the one these contracts describe.

use vstd::prelude::*;

use crate::errors::TlError;
use crate::roster::{decode_jp_speaker, Character, Decoded, EnSpeaker, Roster, decode_sp};
use crate::text::{has_sub, contains_sub, lemma_add_assoc};

verus! {

/// One translated line of the rolling context: the speaker pair (source
/// label, decoded target label) if the line had one, the source line, and
/// the target line.
#[derive(Debug)]
pub struct Seen {
    pub speaker: Option<(String, String)>,
    pub jpline: String,
    pub enline: String,
}

impl View for Seen {
    type V = (Option<(Seq<char>, Seq<char>)>, Seq<char>, Seq<char>);

    open spec fn view(&self) -> (Option<(Seq<char>, Seq<char>)>, Seq<char>, Seq<char>) {
        (
            match self.speaker {
                Some(p) => Some((p.0@, p.1@)),
                None => None,
            },
            self.jpline@,
            self.enline@,
        )
    }
}

impl Clone for Seen {
    fn clone(&self) -> (res: Self)
        ensures
            res@ == self@,
    {
        Seen {
            speaker: match &self.speaker {
                Some(p) => Some((p.0.clone(), p.1.clone())),
                None => None,
            },
            jpline: self.jpline.clone(),
            enline: self.enline.clone(),
        }
    }
}

/// The views of a rolling context, in order.
pub open spec fn seen_views(s: Seq<Seen>) -> Seq<
    (Option<(Seq<char>, Seq<char>)>, Seq<char>, Seq<char>),
> {
    s.map_values(|x: Seen| x@)
}

/// An explicit snapshot of the rolling context, for the variant branch: the
/// copy holds the same entries, and mutating it leaves the source window alone.
pub fn snapshot(seen: &Vec<Seen>) -> (r: Vec<Seen>)
    ensures
        seen_views(r@) == seen_views(seen@),
        r@.len() == seen@.len(),
{
    let mut out: Vec<Seen> = Vec::new();
    let mut i: usize = 0;
    while i < seen.len()
        invariant
            i <= seen@.len(),
            out@.len() == i,
            forall|j: int| 0 <= j < i ==> ((#[trigger] out@[j])@) == seen@[j]@,
        decreases seen@.len() - i,
    {
        let c = seen[i].clone();
        out.push(c);
        i += 1;
    }
    proof {
        assert(seen_views(out@) =~= seen_views(seen@));
    }
    out
}

/// The `[name]: ` tag put before a tagged line.
pub open spec fn tag_sp(name: Seq<char>) -> Seq<char> {
    "["@ + name + "]: "@
}

/// Renders the `[name]: ` speaker tag.
pub fn speaker_tag(name: &str) -> (r: String)
    ensures
        r@ == tag_sp(name@),
{
    String::from_str("[").concat(name).concat("]: ")
}

/// The rendering of one rolling-context entry: the source line and its
/// translation, each under its language header and speaker tag.
pub open spec fn seen_sp(s: (Option<(Seq<char>, Seq<char>)>, Seq<char>, Seq<char>)) -> Seq<char> {
    "<|start_header_id|>Japanese<|end_header_id|>]\n\n"@ + (match s.0 {
        Some(p) => tag_sp(p.0),
        None => Seq::<char>::empty(),
    }) + s.1 + "<|eot_id|><|start_header_id|>English<|end_header_id|>\n\n"@ + (match s.0 {
        Some(p) => tag_sp(p.1),
        None => Seq::<char>::empty(),
    }) + s.2 + "<|eot_id|>"@
}

impl Seen {
    /// Renders this entry for the prompt.
    pub fn render(&self) -> (r: String)
        ensures
            r@ == seen_sp(self@),
    {
        let mut out = String::from_str("<|start_header_id|>Japanese<|end_header_id|>]\n\n");
        let t1 = match &self.speaker {
            Some(p) => speaker_tag(p.0.as_str()),
            None => String::new(),
        };
        out.append(t1.as_str());
        out.append(self.jpline.as_str());
        out.append("<|eot_id|><|start_header_id|>English<|end_header_id|>\n\n");
        let t2 = match &self.speaker {
            Some(p) => speaker_tag(p.1.as_str()),
            None => String::new(),
        };
        out.append(t2.as_str());
        out.append(self.enline.as_str());
        out.append("<|eot_id|>");
        out
    }
}

/// The rendered alias list of a character: `en (jp)` pairs, comma-separated.
pub open spec fn aliases_sp(als: Seq<(String, String)>, i: int) -> Seq<char>
    decreases als.len() - i,
    when 0 <= i <= als.len()
{
    if i >= als.len() {
        Seq::<char>::empty()
    } else {
        ((als[i].1@ + " ("@ + als[i].0@ + ")"@) + (if i + 1 < als.len() {
            ", "@
        } else {
            Seq::<char>::empty()
        })) + aliases_sp(als, i + 1)
    }
}

/// The metadata line of one character: name, source name, gender, and any
/// aliases.
pub open spec fn character_line_sp(c: Character) -> Seq<char> {
    ("Name: "@ + c.enspeaker@ + " ("@ + c.jpspeaker@ + ") | Gender: "@ + c.gender@) + (
    if c.aliases@.len() == 0 {
        Seq::<char>::empty()
    } else {
        " | Aliases: "@ + aliases_sp(c.aliases@, 0)
    })
}

/// Renders a character's metadata line.
pub fn render_character(c: &Character) -> (r: String)
    ensures
        r@ == character_line_sp(*c),
{
    let mut out = String::from_str("Name: ");
    out.append(c.enspeaker.as_str());
    out.append(" (");
    out.append(c.jpspeaker.as_str());
    out.append(") | Gender: ");
    out.append(c.gender.as_str());
    let ghost front = out@;
    if c.aliases.len() > 0 {
        out.append(" | Aliases: ");
        let ghost front2 = out@;
        let n = c.aliases.len();
        let mut i: usize = 0;
        while i < n
            invariant
                n == c.aliases@.len(),
                i <= n,
                front2 == front + " | Aliases: "@,
                out@ + aliases_sp(c.aliases@, i as int) == front2 + aliases_sp(c.aliases@, 0),
            decreases n - i,
        {
            let ghost prev = out@;
            let a = &c.aliases[i];
            let mut piece = a.1.clone();
            piece.append(" (");
            piece.append(a.0.as_str());
            piece.append(")");
            out.append(piece.as_str());
            if i + 1 < n {
                out.append(", ");
            }
            proof {
                let sep: Seq<char> = if i + 1 < n {
                    ", "@
                } else {
                    Seq::<char>::empty()
                };
                assert(aliases_sp(c.aliases@, i as int) == (piece@ + sep) + aliases_sp(
                    c.aliases@,
                    i + 1,
                ));
                if i + 1 < n {
                    assert(out@ == (prev + piece@) + sep);
                    lemma_add_assoc(prev, piece@, sep);
                } else {
                    assert(out@ == prev + piece@);
                    assert(piece@ + sep =~= piece@);
                }
                assert(out@ == prev + (piece@ + sep));
                lemma_add_assoc(prev, piece@ + sep, aliases_sp(c.aliases@, i + 1));
            }
            i += 1;
        }
        proof {
            assert(out@ + Seq::<char>::empty() =~= out@);
            lemma_add_assoc(front, " | Aliases: "@, aliases_sp(c.aliases@, 0));
        }
        out
    } else {
        proof {
            assert(front + Seq::<char>::empty() =~= front);
        }
        out
    }
}



/// The source-language short name the roster scan looks for: the short form
/// when the entry has one, else the full label.
pub open spec fn short_or_full(c: Character) -> Seq<char> {
    if c.jpshort@.len() == 0 {
        c.jpspeaker@
    } else {
        c.jpshort@
    }
}

/// Some alias of `c` occurs in the upcoming line.
pub open spec fn alias_hit(c: Character, nl: Seq<char>) -> bool {
    exists|a: int| 0 <= a < c.aliases@.len() && has_sub(nl, ((#[trigger] c.aliases@[a]).0)@)
}

/// `acc` with `c` appended unless already present.
pub open spec fn add_idx(acc: Seq<usize>, c: usize) -> Seq<usize> {
    if acc.contains(c) {
        acc
    } else {
        acc.push(c)
    }
}

/// Decoding one speaker label: an unrecognized label is the error, a roster
/// entry joins the set, anything else leaves it alone.
pub open spec fn step_label(cs: Seq<Character>, lab: Seq<char>, acc: Seq<usize>) -> Result<
    Seq<usize>,
    Seq<char>,
> {
    match decode_sp(cs, lab) {
        Decoded::Unknown => Err(lab),
        Decoded::Chara(c) => Ok(add_idx(acc, c)),
        Decoded::Voice(_) => Ok(acc),
        Decoded::Mystery => Ok(acc),
    }
}

/// The roster entries named by the context-window speakers from position
/// `i` on, folded into `acc`; the first undecodable label is the error.
pub open spec fn collect_ctx(
    cs: Seq<Character>,
    sv: Seq<(Option<(Seq<char>, Seq<char>)>, Seq<char>, Seq<char>)>,
    i: int,
    acc: Seq<usize>,
) -> Result<Seq<usize>, Seq<char>>
    decreases sv.len() - i,
    when 0 <= i <= sv.len()
{
    if i >= sv.len() {
        Ok(acc)
    } else {
        match sv[i].0 {
            None => collect_ctx(cs, sv, i + 1, acc),
            Some(p) => match step_label(cs, p.0, acc) {
                Err(l) => Err(l),
                Ok(a2) => collect_ctx(cs, sv, i + 1, a2),
            },
        }
    }
}

/// The roster entries added by scanning every character's short name and
/// aliases against the upcoming line, from position `i` on.
pub open spec fn scan_roster(cs: Seq<Character>, nl: Seq<char>, i: int, acc: Seq<usize>) -> Seq<
    usize,
>
    decreases cs.len() - i,
    when 0 <= i <= cs.len()
{
    if i >= cs.len() {
        acc
    } else {
        let hit = !acc.contains(i as usize) && (has_sub(nl, short_or_full(cs[i])) || alias_hit(
            cs[i],
            nl,
        ));
        scan_roster(cs, nl, i + 1, if hit {
            acc.push(i as usize)
        } else {
            acc
        })
    }
}

/// The roster entries the header lists, in first-seen order: context-window
/// speakers, the upcoming speaker, then the literal-match scan; or the
/// first undecodable speaker label.
pub open spec fn header_idxs(
    cs: Seq<Character>,
    sv: Seq<(Option<(Seq<char>, Seq<char>)>, Seq<char>, Seq<char>)>,
    nsp: Option<Seq<char>>,
    nl: Seq<char>,
) -> Result<Seq<usize>, Seq<char>> {
    match collect_ctx(cs, sv, 0, Seq::empty()) {
        Err(l) => Err(l),
        Ok(acc) => match nsp {
            None => Ok(scan_roster(cs, nl, 0, acc)),
            Some(s) => match step_label(cs, s, acc) {
                Err(l) => Err(l),
                Ok(a2) => Ok(scan_roster(cs, nl, 0, a2)),
            },
        },
    }
}

/// The glossary entries whose trigger occurs in some context-window source
/// line or in the upcoming line, in table order, from position `i` on.
pub open spec fn el_hits(
    els: Seq<(String, String)>,
    sv: Seq<(Option<(Seq<char>, Seq<char>)>, Seq<char>, Seq<char>)>,
    nl: Seq<char>,
    i: int,
) -> Seq<usize>
    decreases els.len() - i,
    when 0 <= i <= els.len()
{
    if i >= els.len() {
        Seq::empty()
    } else {
        let hit = (exists|j: int| 0 <= j < sv.len() && has_sub((#[trigger] sv[j]).1, els[i].0@))
            || has_sub(nl, els[i].0@);
        (if hit {
            seq![i as usize]
        } else {
            Seq::empty()
        }) + el_hits(els, sv, nl, i + 1)
    }
}

/// The character block of the header: one metadata line per listed entry.
pub open spec fn char_lines_sp(cs: Seq<Character>, idxs: Seq<usize>, k: int) -> Seq<char>
    decreases idxs.len() - k,
    when 0 <= k <= idxs.len()
{
    if k >= idxs.len() {
        Seq::<char>::empty()
    } else {
        ("\n[character] "@ + character_line_sp(cs[idxs[k] as int])) + char_lines_sp(cs, idxs, k + 1)
    }
}

/// The glossary block of the header: one descriptive line per hit.
pub open spec fn el_lines_sp(els: Seq<(String, String)>, idxs: Seq<usize>, k: int) -> Seq<char>
    decreases idxs.len() - k,
    when 0 <= k <= idxs.len()
{
    if k >= idxs.len() {
        Seq::<char>::empty()
    } else {
        ("\n"@ + els[idxs[k] as int].1@) + el_lines_sp(els, idxs, k + 1)
    }
}

/// The whole metadata header, assuming every speaker label decodes.
pub open spec fn header_sp(
    cs: Seq<Character>,
    els: Seq<(String, String)>,
    sv: Seq<(Option<(Seq<char>, Seq<char>)>, Seq<char>, Seq<char>)>,
    nsp: Option<Seq<char>>,
    nl: Seq<char>,
) -> Seq<char> {
    let idxs = match header_idxs(cs, sv, nsp, nl) {
        Ok(x) => x,
        Err(_) => Seq::empty(),
    };
    (("<|begin_of_text|><|start_header_id|>Metadata<|end_header_id|>\n"@ + char_lines_sp(
        cs,
        idxs,
        0,
    )) + el_lines_sp(els, el_hits(els, sv, nl, 0), 0)) + "<|eot_id|>"@
}

/// The view of an optional upcoming speaker label.
pub open spec fn nsp_view(o: Option<&str>) -> Option<Seq<char>> {
    match o {
        Some(s) => Some(s@),
        None => None,
    }
}

/// Whether `v` holds `c`.
fn contains_idx(v: &Vec<usize>, c: usize) -> (r: bool)
    ensures
        r == v@.contains(c),
{
    let mut i: usize = 0;
    while i < v.len()
        invariant
            i <= v@.len(),
            forall|j: int| 0 <= j < i ==> v@[j] != c,
        decreases v@.len() - i,
    {
        if v[i] == c {
            return true;
        }
        i += 1;
    }
    false
}

/// Appends `c` unless already present.
fn push_unique(v: &mut Vec<usize>, c: usize)
    ensures
        final(v)@ == add_idx(old(v)@, c),
{
    if !contains_idx(v, c) {
        v.push(c);
    }
}

/// Whether some alias of `c` occurs in the upcoming line.
fn any_alias_hit(c: &Character, next_line: &str) -> (r: bool)
    ensures
        r == alias_hit(*c, next_line@),
{
    let mut a: usize = 0;
    while a < c.aliases.len()
        invariant
            a <= c.aliases@.len(),
            forall|t: int| 0 <= t < a ==> !has_sub(next_line@, ((#[trigger] c.aliases@[t]).0)@),
        decreases c.aliases@.len() - a,
    {
        if contains_sub(next_line, c.aliases[a].0.as_str()) {
            return true;
        }
        a += 1;
    }
    false
}

/// Whether some context-window source line holds `trigger`.
fn any_seen_contains(seen: &Vec<Seen>, trigger: &str) -> (r: bool)
    ensures
        r == (exists|j: int|
            0 <= j < seen@.len() && has_sub(((#[trigger] seen_views(seen@)[j]).1), trigger@)),
{
    let mut j: usize = 0;
    while j < seen.len()
        invariant
            j <= seen@.len(),
            forall|t: int| 0 <= t < j ==> !has_sub(((#[trigger] seen_views(seen@)[t]).1), trigger@),
        decreases seen@.len() - j,
    {
        proof {
            assert(seen_views(seen@)[j as int] == seen@[j as int]@);
        }
        if contains_sub(seen[j].jpline.as_str(), trigger) {
            return true;
        }
        j += 1;
    }
    false
}

/// Builds the dynamic metadata header: every character inferable from the
/// context-window speakers or from a literal match in the upcoming line,
/// then every glossary entry whose trigger occurs in the window or the
/// upcoming line. An undecodable speaker label is a fatal error.
pub fn build_header(roster: &Roster, seen: &Vec<Seen>, next_speaker: Option<&str>, next_line: &str) -> (r: Result<
    String,
    TlError,
>)
    ensures
        match r {
            Ok(h) => header_idxs(
                roster.characters@,
                seen_views(seen@),
                nsp_view(next_speaker),
                next_line@,
            ) is Ok && h@ == header_sp(
                roster.characters@,
                roster.elements@,
                seen_views(seen@),
                nsp_view(next_speaker),
                next_line@,
            ),
            Err(e) => (header_idxs(
                roster.characters@,
                seen_views(seen@),
                nsp_view(next_speaker),
                next_line@,
            ) matches Err(lab) && (e matches TlError::UnknownSpeaker(u) && u@ == lab)),
        },
{
    let ghost cs = roster.characters@;
    let ghost sv = seen_views(seen@);
    let ghost nl = next_line@;

    let mut idxs: Vec<usize> = Vec::new();
    let mut i: usize = 0;
    while i < seen.len()
        invariant
            cs == roster.characters@,
            sv == seen_views(seen@),
            sv.len() == seen@.len(),
            i <= seen@.len(),
            forall|k: int| 0 <= k < idxs@.len() ==> ((#[trigger] idxs@[k]) as int) < cs.len(),
            collect_ctx(cs, sv, 0, Seq::empty()) == collect_ctx(cs, sv, i as int, idxs@),
        decreases seen@.len() - i,
    {
        proof {
            assert(sv[i as int] == seen@[i as int]@);
        }
        match &seen[i].speaker {
            None => {},
            Some(p) => {
                match decode_jp_speaker(&roster.characters, p.0.as_str()) {
                    Ok(EnSpeaker::Character(c)) => {
                        push_unique(&mut idxs, c);
                    },
                    Ok(EnSpeaker::Str(_)) => {},
                    Err(e) => {
                        return Err(e);
                    },
                }
            },
        }
        i += 1;
    }

    match next_speaker {
        None => {},
        Some(s) => {
            match decode_jp_speaker(&roster.characters, s) {
                Ok(EnSpeaker::Character(c)) => {
                    push_unique(&mut idxs, c);
                },
                Ok(EnSpeaker::Str(_)) => {},
                Err(e) => {
                    return Err(e);
                },
            }
        },
    }
    let ghost acc1 = idxs@;
    proof {
        assert(header_idxs(cs, sv, nsp_view(next_speaker), nl) == Ok::<Seq<usize>, Seq<char>>(
            scan_roster(cs, nl, 0, acc1),
        ));
    }

    let mut ci: usize = 0;
    while ci < roster.characters.len()
        invariant
            cs == roster.characters@,
            nl == next_line@,
            ci <= cs.len(),
            forall|k: int| 0 <= k < idxs@.len() ==> ((#[trigger] idxs@[k]) as int) < cs.len(),
            scan_roster(cs, nl, 0, acc1) == scan_roster(cs, nl, ci as int, idxs@),
        decreases cs.len() - ci,
    {
        let c = &roster.characters[ci];
        let already = contains_idx(&idxs, ci);
        let mut hit = false;
        if !already {
            let sp = if c.jpshort.as_str().is_empty() {
                c.jpspeaker.as_str()
            } else {
                c.jpshort.as_str()
            };
            if contains_sub(next_line, sp) {
                hit = true;
            } else if any_alias_hit(c, next_line) {
                hit = true;
            }
        }
        proof {
            assert(hit == (!idxs@.contains(ci as usize) && (has_sub(nl, short_or_full(cs[ci as int]))
                || alias_hit(cs[ci as int], nl))));
        }
        if hit {
            idxs.push(ci);
        }
        ci += 1;
    }
    let ghost full_idxs = idxs@;
    proof {
        assert(full_idxs == scan_roster(cs, nl, 0, acc1));
    }

    let mut eidx: Vec<usize> = Vec::new();
    let mut ei: usize = 0;
    while ei < roster.elements.len()
        invariant
            cs == roster.characters@,
            sv == seen_views(seen@),
            sv.len() == seen@.len(),
            nl == next_line@,
            ei <= roster.elements@.len(),
            forall|k: int| 0 <= k < eidx@.len() ==> ((#[trigger] eidx@[k]) as int) < roster.elements@.len(),
            el_hits(roster.elements@, sv, nl, 0) == eidx@ + el_hits(
                roster.elements@,
                sv,
                nl,
                ei as int,
            ),
        decreases roster.elements@.len() - ei,
    {
        let ghost prev = eidx@;
        let trig = &roster.elements[ei].0;
        let hit = any_seen_contains(seen, trig.as_str()) || contains_sub(next_line, trig.as_str());
        proof {
            assert(hit == ((exists|j: int|
                0 <= j < sv.len() && has_sub((#[trigger] sv[j]).1, roster.elements@[ei as int].0@))
                || has_sub(nl, roster.elements@[ei as int].0@)));
        }
        if hit {
            eidx.push(ei);
            proof {
                assert(eidx@ =~= prev + seq![ei as usize]);
                lemma_add_assoc(prev, seq![ei as usize], el_hits(roster.elements@, sv, nl, ei + 1));
            }
        } else {
            proof {
                assert(prev + Seq::<usize>::empty() =~= prev);
                assert(Seq::<usize>::empty() + el_hits(roster.elements@, sv, nl, ei + 1) =~= el_hits(
                    roster.elements@,
                    sv,
                    nl,
                    ei + 1,
                ));
            }
        }
        ei += 1;
    }
    proof {
        assert(eidx@ + Seq::<usize>::empty() =~= eidx@);
        assert(eidx@ == el_hits(roster.elements@, sv, nl, 0));
    }

    let mut out = String::from_str("<|begin_of_text|><|start_header_id|>Metadata<|end_header_id|>\n");
    let ghost h0 = out@;
    let mut k: usize = 0;
    while k < idxs.len()
        invariant
            cs == roster.characters@,
            k <= idxs@.len(),
            forall|t: int| 0 <= t < idxs@.len() ==> ((#[trigger] idxs@[t]) as int) < cs.len(),
            h0 == "<|begin_of_text|><|start_header_id|>Metadata<|end_header_id|>\n"@,
            out@ + char_lines_sp(cs, idxs@, k as int) == h0 + char_lines_sp(cs, idxs@, 0),
        decreases idxs@.len() - k,
    {
        let ghost prev = out@;
        out.append("\n[character] ");
        let line = render_character(&roster.characters[idxs[k]]);
        out.append(line.as_str());
        proof {
            assert(out@ == (prev + "\n[character] "@) + line@);
            lemma_add_assoc(prev, "\n[character] "@, line@);
            assert(char_lines_sp(cs, idxs@, k as int) == ("\n[character] "@ + character_line_sp(
                cs[idxs@[k as int] as int],
            )) + char_lines_sp(cs, idxs@, k + 1));
            lemma_add_assoc(
                prev,
                "\n[character] "@ + line@,
                char_lines_sp(cs, idxs@, k + 1),
            );
        }
        k += 1;
    }
    proof {
        assert(out@ + Seq::<char>::empty() =~= out@);
        assert(out@ == h0 + char_lines_sp(cs, full_idxs, 0));
    }
    let ghost mid = out@;

    let mut k2: usize = 0;
    while k2 < eidx.len()
        invariant
            cs == roster.characters@,
            k2 <= eidx@.len(),
            forall|t: int| 0 <= t < eidx@.len() ==> ((#[trigger] eidx@[t]) as int) < roster.elements@.len(),
            out@ + el_lines_sp(roster.elements@, eidx@, k2 as int) == mid + el_lines_sp(
                roster.elements@,
                eidx@,
                0,
            ),
        decreases eidx@.len() - k2,
    {
        let ghost prev = out@;
        out.append("\n");
        let line = &roster.elements[eidx[k2]].1;
        out.append(line.as_str());
        proof {
            assert(out@ == (prev + "\n"@) + line@);
            lemma_add_assoc(prev, "\n"@, line@);
            assert(el_lines_sp(roster.elements@, eidx@, k2 as int) == ("\n"@
                + roster.elements@[eidx@[k2 as int] as int].1@) + el_lines_sp(
                roster.elements@,
                eidx@,
                k2 + 1,
            ));
            lemma_add_assoc(prev, "\n"@ + line@, el_lines_sp(roster.elements@, eidx@, k2 + 1));
        }
        k2 += 1;
    }
    proof {
        assert(out@ + Seq::<char>::empty() =~= out@);
    }
    out.append("<|eot_id|>");
    Ok(out)
}



/// The rendered rolling context, in order, from position `i` on.
pub open spec fn seen_block_sp(
    sv: Seq<(Option<(Seq<char>, Seq<char>)>, Seq<char>, Seq<char>)>,
    i: int,
) -> Seq<char>
    decreases sv.len() - i,
    when 0 <= i <= sv.len()
{
    if i >= sv.len() {
        Seq::<char>::empty()
    } else {
        seen_sp(sv[i]) + seen_block_sp(sv, i + 1)
    }
}

/// The whole prompt: the metadata header, the rendered context window, and
/// the upcoming source line under its language headers, tagged with the raw
/// source speaker label when there is one.
pub open spec fn prompt_sp(
    cs: Seq<Character>,
    els: Seq<(String, String)>,
    sv: Seq<(Option<(Seq<char>, Seq<char>)>, Seq<char>, Seq<char>)>,
    nsp: Option<Seq<char>>,
    nl: Seq<char>,
) -> Seq<char> {
    ((((header_sp(cs, els, sv, nsp, nl) + seen_block_sp(sv, 0))
        + "<|start_header_id|>Japanese<|end_header_id|>\n\n"@) + (match nsp {
        Some(s) => tag_sp(s),
        None => Seq::<char>::empty(),
    })) + nl) + "<|eot_id|><|start_header_id|>English<|end_header_id|>\n\n"@
}

/// Builds the prompt for the upcoming line: header, context window in
/// order, then the line itself. An undecodable speaker label is a fatal
/// error.
pub fn build_prompt(roster: &Roster, seen: &Vec<Seen>, next_speaker: Option<&str>, next_line: &str) -> (r: Result<
    String,
    TlError,
>)
    ensures
        match r {
            Ok(p) => header_idxs(
                roster.characters@,
                seen_views(seen@),
                nsp_view(next_speaker),
                next_line@,
            ) is Ok && p@ == prompt_sp(
                roster.characters@,
                roster.elements@,
                seen_views(seen@),
                nsp_view(next_speaker),
                next_line@,
            ),
            Err(e) => (header_idxs(
                roster.characters@,
                seen_views(seen@),
                nsp_view(next_speaker),
                next_line@,
            ) matches Err(lab) && (e matches TlError::UnknownSpeaker(u) && u@ == lab)),
        },
{
    let ghost sv = seen_views(seen@);
    let mut out = match build_header(roster, seen, next_speaker, next_line) {
        Ok(h) => h,
        Err(e) => {
            return Err(e);
        },
    };
    let ghost hd = out@;
    let mut i: usize = 0;
    while i < seen.len()
        invariant
            sv == seen_views(seen@),
            sv.len() == seen@.len(),
            i <= seen@.len(),
            out@ + seen_block_sp(sv, i as int) == hd + seen_block_sp(sv, 0),
        decreases seen@.len() - i,
    {
        let ghost prev = out@;
        let line = seen[i].render();
        out.append(line.as_str());
        proof {
            assert(sv[i as int] == seen@[i as int]@);
            assert(seen_block_sp(sv, i as int) == seen_sp(sv[i as int]) + seen_block_sp(
                sv,
                i + 1,
            ));
            lemma_add_assoc(prev, line@, seen_block_sp(sv, i + 1));
        }
        i += 1;
    }
    proof {
        assert(out@ + Seq::<char>::empty() =~= out@);
        assert(out@ == hd + seen_block_sp(sv, 0));
    }
    out.append("<|start_header_id|>Japanese<|end_header_id|>\n\n");
    let t = match next_speaker {
        Some(s) => speaker_tag(s),
        None => String::new(),
    };
    out.append(t.as_str());
    out.append(next_line);
    out.append("<|eot_id|><|start_header_id|>English<|end_header_id|>\n\n");
    Ok(out)
}

} // verus!
