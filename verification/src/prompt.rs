//! Prompt construction for the AI matchday recap, and the clean-up of the
//! model's answer.
//!
//! The instructions are written in English; the output language is requested
//! inside the prompt.

use vstd::prelude::*;

use crate::text::{append_str, chars_of, find_from, has_substring, replace_all, replace_of, slice_chars, string_of, trim, trim_end, trim_of, trim_end_of};

verus! {

/// Target length window for the generated recap, in words.
pub const TARGET_WORDS: &'static str = "250-400";

/// English name of the language of a locale code; English for unknown codes.
pub open spec fn language_name_of(code: Seq<char>) -> Seq<char> {
    if code == "de"@ {
        "German"@
    } else if code == "en"@ {
        "English"@
    } else if code == "es"@ {
        "Spanish"@
    } else if code == "fr"@ {
        "French"@
    } else {
        "English"@
    }
}

/// Map a locale code to the English name of the language. Falls back to English.
pub fn language_name(code: &str) -> (name: &'static str)
    ensures
        name@ == language_name_of(code@),
{
    if crate::text::str_eq(code, "de") {
        "German"
    } else if crate::text::str_eq(code, "en") {
        "English"
    } else if crate::text::str_eq(code, "es") {
        "Spanish"
    } else if crate::text::str_eq(code, "fr") {
        "French"
    } else {
        "English"
    }
}

/// Persona, voice, task and rules of the recap, with `{LANG}` and `{WORDS}`
/// placeholders.
pub const SYSTEM_TEMPLATE: &'static str = r#"You are the editor of a satirical football magazine, writing in the unmistakable
style of the German magazine "11FREUNDE" — but adapted into {LANG}.

Your job: write the recap of the latest matchday for a private World Cup 2026
prediction game ("Tippspiel"), where a circle of friends competes by predicting
match scores and collecting points.

=========================================================================
THE "11FREUNDE" VOICE — STUDY THIS CAREFULLY
=========================================================================
11FREUNDE writes about football the way good feature journalists write about
life. Reproduce these traits precisely:

- Literary, fan's-eye perspective, never the dry voice of a results ticker.
- Dry irony and deadpan understatement as the default register. The funniest
  things are stated with a straight face.
- Mock-heroic register: trivial events (an amateur predictor moving up one rank)
  are narrated with the epic pathos of a Champions League final — and that pathos
  is then deliberately punctured by bathos.
- Affection for failure. Losers, underdogs and spectacular blunders are treated
  with warmth and tenderness, not contempt. To fail beautifully is the highest art.
- Melancholy woven into the humour: a wistful, slightly nostalgic undertone.
- Love of football's absurd folklore: obscure trivia, historical callbacks,
  cult players, the romance of lower-league and tournament lore.
- Creative, playful use of football vocabulary and clichés — tactical jargon
  ("false nine", "parking the bus", "relegation battle", "goal-fest"), commentator
  phrases and pundit platitudes, twisted into fresh wordplay and puns.
- Gentle, self-aware mockery of football's pomp, of corporate football, and of
  the participants themselves — always punching sideways, never cruel.
- Vivid metaphors and unexpected comparisons; the everyday made grand.

Render this sensibility natively in {LANG} — do NOT translate German idioms
literally. Find the equivalent witty football-magazine register that a native
{LANG} reader would recognise as clever and funny.

=========================================================================
WHAT TO WRITE
=========================================================================
1. Briefly comment on the actual match results of this matchday (the real football).
2. Then make the heart of the piece the prediction game: how the results reshuffled
   the standings — who climbed, who collapsed, who got lucky, who got robbed by a
   last-minute goal.
3. Weave in, where they make a good story: bold/brave or terrible predictions,
   exact hits, lone-wolf calls nobody else dared, hot and cold streaks, predicting
   discipline ("Tippmoral"), tendency accuracy, freshly earned badges, and champion
   ("title winner") picks.
4. Single out a "hero" and a "tragic figure" of the matchday if the data supports it.

=========================================================================
HARD RULES
=========================================================================
- Write ONLY in {LANG}.
- Refer to players EXCLUSIVELY by the "name" field given in the data. These are
  public display names. Never invent, guess, alter or augment a player's name.
- Use ONLY the facts in the data. Do NOT invent scores, goalscorers, predictions,
  points, ranks or events that are not present. If something isn't in the data,
  don't claim it. (Light, clearly-rhetorical football folklore for flavour is
  fine; inventing concrete facts about THIS game is not.)
- Length: {WORDS} words. Tight and punchy beats long and flabby.
- Output GitHub-flavoured Markdown: one short, witty title as a level-2 heading
  (##), then prose in 2-4 short paragraphs. No tables, no bullet-point lists,
  no closing meta-commentary about being an AI.
- Output the Markdown directly. Do NOT wrap the whole response in a code fence
  (no ``` around the answer).
- Numbers (points, ranks, scores) must match the data exactly.

=========================================================================
DATA FORMAT (reference)
=========================================================================
- matchday_date: the day being recapped.
- scoring_system: "exact_score" (exact result matters) or "winner_only"
  (only the predicted outcome matters) — judge "brave"/"exact" tips accordingly.
- matches[]: the matchday's finished fixtures: home, away, score_home, score_away, stage.
- players[]:
    - name              : public display name (USE THIS)
    - total_points      : cumulative points after this matchday
    - rank              : current rank (1 = leader; ties share a rank)
    - rank_delta        : rank change caused by this matchday
                          (positive = climbed, negative = dropped, 0 = held)
    - matchday_points   : points scored on this matchday
    - tendency_pct      : share of finished tips that scored any points (may be null)
    - discipline_pct    : share of started matches the player actually tipped (may be null)
    - current_streak    : consecutive recent finished matches scoring >= 1 point
    - badges[]          : achievement badges earned so far ({name, count})
    - champion_pick     : the team this player picked to win the tournament (or null)
    - matchday_tips[]   : this player's predictions for the matches above
                          ({home, away, predicted, points})
- leader / biggest_climber / biggest_faller: pre-computed pointers, may be null."#;

/// The system prompt for an output language.
pub open spec fn system_prompt_of(language_name: Seq<char>) -> Seq<char> {
    replace_of(replace_of(SYSTEM_TEMPLATE@, "{LANG}"@, language_name), "{WORDS}"@, TARGET_WORDS@)
}

/// The system prompt: persona, voice, task and hard rules. `language_name` is
/// the spelled-out output language (e.g. "German").
pub fn system_prompt(language_name: &str) -> (prompt: String)
    ensures
        prompt@ == system_prompt_of(language_name@),
{
    proof {
        reveal_strlit("{LANG}");
        reveal_strlit("{WORDS}");
    }
    let t = chars_of(SYSTEM_TEMPLATE);
    let a = replace_all(&t, "{LANG}", language_name);
    let b = replace_all(&a, "{WORDS}", TARGET_WORDS);
    string_of(&b)
}

/// Opening of the user message, before the data.
pub const USER_PROMPT_HEAD: &'static str = "Here is the structured data for the matchday. Base the recap strictly on it.\n\n```json\n";

/// Closing of the user message, after the data.
pub const USER_PROMPT_TAIL: &'static str = "\n```\n\nNow write the matchday recap in the requested output language.";

/// The user message: the structured matchday data the recap must be based on.
pub fn user_prompt(data_json: &str) -> (prompt: String)
    ensures
        prompt@ == USER_PROMPT_HEAD@ + data_json@ + USER_PROMPT_TAIL@,
{
    let mut v = chars_of(USER_PROMPT_HEAD);
    append_str(&mut v, data_json);
    append_str(&mut v, USER_PROMPT_TAIL);
    string_of(&v)
}

/// The three backticks of a code fence.
pub open spec fn fence() -> Seq<char> {
    seq!['`', '`', '`']
}

/// A response with a fence around the whole of it is unwrapped: the opening
/// fence line (with its info string) and the closing fence are dropped. A
/// response that does not have that shape, or whose info string holds a
/// backtick, is left as it is.
pub open spec fn strip_outer_code_fence_of(markdown: Seq<char>) -> Seq<char> {
    let trimmed = trim_of(markdown);
    if !(trimmed.len() >= 3 && trimmed.subrange(0, 3) == fence()) {
        markdown
    } else {
        let rest = trimmed.subrange(3, trimmed.len() as int);
        match find_from(rest, seq!['\n'], 0) {
            None => markdown,
            Some(nl) => {
                let info = rest.subrange(0, nl);
                let body = rest.subrange(nl + 1, rest.len() as int);
                if has_substring(trim_of(info), seq!['`']) {
                    markdown
                } else {
                    let end = trim_end_of(body);
                    if end.len() >= 3 && end.subrange(end.len() - 3, end.len() as int) == fence() {
                        trim_of(end.subrange(0, end.len() - 3))
                    } else {
                        markdown
                    }
                }
            },
        }
    }
}

/// Some models wrap their whole answer in a fence; unwrap a fence that spans
/// the entire response. Normal content and inner code blocks stay untouched.
pub fn strip_outer_code_fence(markdown: &str) -> (out: String)
    ensures
        out@ == strip_outer_code_fence_of(markdown@),
{
    let m = chars_of(markdown);
    let trimmed = trim(&m);
    let tick = vec!['`', '`', '`'];
    assert(tick@ =~= fence());
    if trimmed.len() < 3 || !crate::text::chars_eq(&slice_chars(&trimmed, 0, 3), &tick) {
        return string_of(&m);
    }
    let rest = slice_chars(&trimmed, 3, trimmed.len());
    let newline = vec!['\n'];
    assert(newline@ =~= seq!['\n']);
    match crate::text::find(&rest, &newline) {
        None => string_of(&m),
        Some(nl) => {
            proof {
                crate::text::lemma_find_in_bounds(rest@, newline@, 0);
            }
            let info = slice_chars(&rest, 0, nl);
            let body = slice_chars(&rest, nl + 1, rest.len());
            let info_trimmed = trim(&info);
            let one_tick = vec!['`'];
            assert(one_tick@ =~= seq!['`']);
            if crate::text::find(&info_trimmed, &one_tick).is_some() {
                return string_of(&m);
            }
            let end = trim_end(&body);
            if end.len() >= 3 && crate::text::chars_eq(&slice_chars(&end, end.len() - 3, end.len()), &tick) {
                let inner = slice_chars(&end, 0, end.len() - 3);
                let t = trim(&inner);
                string_of(&t)
            } else {
                string_of(&m)
            }
        },
    }
}

#[verifier::external_type_specification]
#[verifier::external_body]
pub struct ExMarkdownEvent<'a>(pulldown_cmark::Event<'a>);

/// An event of parsed Markdown.
#[derive(Debug)]
pub enum MdEvent {
    /// A raw HTML block or inline HTML, as written in the text.
    RawHtml(pulldown_cmark::Event<'static>),
    /// Any other event.
    Other(pulldown_cmark::Event<'static>),
    /// Nothing: rendered as empty text.
    Blank,
}

/// The events `pulldown-cmark` parses from a Markdown text with
/// strikethrough enabled.
pub uninterp spec fn md_events_of(markdown: Seq<char>) -> Seq<MdEvent>;

/// The HTML `pulldown-cmark` renders for a list of events.
pub uninterp spec fn html_of(events: Seq<MdEvent>) -> Seq<char>;

/// Parses Markdown into events.
///
/// Trusted: wraps `pulldown_cmark::Parser::new_ext` with
/// `Options::ENABLE_STRIKETHROUGH`, marking its `Html` and `InlineHtml`
/// events as raw HTML; claims only that the events are the named
/// `md_events_of` of the text.
#[verifier::external_body]
fn markdown_events(markdown: &str) -> (events: Vec<MdEvent>)
    ensures
        events@ == md_events_of(markdown@),
{
    let mut out = Vec::new();
    for ev in pulldown_cmark::Parser::new_ext(markdown, pulldown_cmark::Options::ENABLE_STRIKETHROUGH) {
        out.push(match ev {
            pulldown_cmark::Event::Html(_) => MdEvent::RawHtml(ev.into_static()),
            pulldown_cmark::Event::InlineHtml(_) => MdEvent::RawHtml(ev.into_static()),
            _ => MdEvent::Other(ev.into_static()),
        });
    }
    out
}

/// Renders events to HTML.
///
/// Trusted: wraps `pulldown_cmark::html::push_html`, handing it each event as
/// parsed and `Blank` as an empty `Event::Text`; claims only that the result
/// is the named `html_of` of the events.
#[verifier::external_body]
fn render_events(events: &Vec<MdEvent>) -> (html: String)
    ensures
        html@ == html_of(events@),
{
    let mut evs: Vec<pulldown_cmark::Event<'static>> = Vec::new();
    for e in events.iter() {
        evs.push(match e {
            MdEvent::RawHtml(ev) => ev.clone(),
            MdEvent::Other(ev) => ev.clone(),
            MdEvent::Blank => pulldown_cmark::Event::Text("".into()),
        });
    }
    let mut out = String::new();
    pulldown_cmark::html::push_html(&mut out, evs.into_iter());
    out
}

/// The events with every raw HTML event replaced by nothing.
pub open spec fn blanked(events: Seq<MdEvent>) -> Seq<MdEvent> {
    events.map_values(|e: MdEvent| if e is RawHtml { MdEvent::Blank } else { e })
}

/// Replaces every raw HTML event by nothing, keeping the others in place.
pub fn blank_raw_html(events: Vec<MdEvent>) -> (out: Vec<MdEvent>)
    ensures
        out@ == blanked(events@),
{
    let mut out = events;
    let ghost orig = out@;
    let mut i: usize = 0;
    while i < out.len()
        invariant
            i <= out@.len(),
            out@.len() == orig.len(),
            forall|j: int| 0 <= j < i ==> out@[j] == blanked(orig)[j],
            forall|j: int| i <= j < out@.len() ==> out@[j] == orig[j],
        decreases out@.len() - i,
    {
        let raw = match &out[i] {
            MdEvent::RawHtml(_) => true,
            _ => false,
        };
        if raw {
            out.set(i, MdEvent::Blank);
        }
        i = i + 1;
    }
    assert(out@ =~= blanked(orig));
    out
}

/// Model-authored Markdown rendered to HTML for the dashboard: an outer fence
/// around the whole answer is unwrapped first, and embedded raw HTML is
/// rendered as nothing so a response can never inject markup.
pub fn markdown_to_safe_html(markdown: &str) -> (html: String)
    ensures
        html@ == html_of(blanked(md_events_of(strip_outer_code_fence_of(markdown@)))),
{
    let inner = strip_outer_code_fence(markdown);
    let events = markdown_events(inner.as_str());
    let safe = blank_raw_html(events);
    render_events(&safe)
}

/// No raw HTML event reaches the renderer: after blanking, every event is
/// either blank or one that is not raw HTML, in its place.
pub proof fn lemma_no_raw_html_rendered(events: Seq<MdEvent>)
    ensures
        blanked(events).len() == events.len(),
        forall|i: int| 0 <= i < events.len() ==> !(#[trigger] blanked(events)[i] is RawHtml),
        forall|i: int| 0 <= i < events.len() && !(events[i] is RawHtml) ==> #[trigger] blanked(events)[i] == events[i],
{
}

} // verus!
