//! Which path an incoming group message takes: the on-demand annotated
//! check, silent auto-moderation, an admin switch, or nothing.
use crate::moderation::{enabled_in, Whitelist};
use vstd::prelude::*;

verus! {

/// The text with leading and trailing whitespace removed, as `str::trim` does.
pub uninterp spec fn trimmed_of(s: Seq<char>) -> Seq<char>;

/// A character with the Unicode `White_Space` property, the set that
/// `str::trim` removes.
pub open spec fn is_white_space(c: char) -> bool {
    ('\u{9}' <= c <= '\u{d}') || c == ' ' || c == '\u{85}' || c == '\u{a0}' || c == '\u{1680}'
        || ('\u{2000}' <= c <= '\u{200a}') || c == '\u{2028}' || c == '\u{2029}' || c
        == '\u{202f}' || c == '\u{205f}' || c == '\u{3000}'
}

/// Neither the first nor the last character is white space.
pub open spec fn no_edge_space(s: Seq<char>) -> bool {
    s.len() == 0 || (!is_white_space(s[0]) && !is_white_space(s.last()))
}

/// Relies on `str::trim`: the result depends on the characters alone, and
/// a string that neither starts nor ends with `White_Space` is unchanged.
#[verifier::external_body]
fn trim_text(s: &String) -> (r: String)
    ensures
        r@ == trimmed_of(s@),
        no_edge_space(s@) ==> r@ == s@,
{
    s.trim().to_string()
}

/// What to do with an image-bearing group message.
#[derive(Clone, Copy, Debug, PartialEq, Eq, Structural)]
pub enum Route {
    /// Nothing.
    Ignore,
    /// Detect, composite, and reply with the annotated images.
    Annotate,
    /// Detect and feed the result to the moderation records.
    AutoModerate,
}

/// The route of a message whose trimmed text is `text`, with `image_count`
/// images, in a group whose switch is `enabled`. The on-demand command is
/// never auto-moderated, whatever the switch says.
pub open spec fn route_of(text: Option<Seq<char>>, image_count: nat, enabled: bool, cmd: Seq<
    char,
>) -> Route {
    if image_count == 0 {
        Route::Ignore
    } else if text == Some(cmd) {
        Route::Annotate
    } else if enabled {
        Route::AutoModerate
    } else {
        Route::Ignore
    }
}

pub open spec fn trimmed_text(text: Option<String>) -> Option<Seq<char>> {
    match text {
        Some(s) => Some(trimmed_of(s@)),
        None => None,
    }
}

/// The text of a message equals `cmd` once trimmed.
pub fn is_command(text: &Option<String>, cmd: &String) -> (r: bool)
    ensures
        r == (trimmed_text(*text) == Some(cmd@)),
        text is Some && no_edge_space(text.unwrap()@) ==> r == (text.unwrap()@ == cmd@),
{
    match text {
        Some(s) => {
            let t = trim_text(s);
            t == *cmd
        },
        None => false,
    }
}

/// Chooses the route of an image-bearing message in `group_id`.
pub fn route_message(
    text: &Option<String>,
    image_count: usize,
    whitelist: &Whitelist,
    group_id: i64,
    reply_cmd: &String,
) -> (r: Route)
    ensures
        r == route_of(
            trimmed_text(*text),
            image_count as nat,
            enabled_in(whitelist.groups@, group_id),
            reply_cmd@,
        ),
        text is Some && no_edge_space(text.unwrap()@) && text.unwrap()@ == reply_cmd@
            && image_count > 0 ==> r == Route::Annotate,
{
    if image_count == 0 {
        Route::Ignore
    } else if is_command(text, reply_cmd) {
        Route::Annotate
    } else if whitelist.is_enabled(group_id) {
        Route::AutoModerate
    } else {
        Route::Ignore
    }
}

/// A message that is exactly the on-demand command never takes the
/// auto-moderation path, even in a whitelisted group.
pub proof fn lemma_command_never_auto_moderated(
    text: Seq<char>,
    image_count: nat,
    enabled: bool,
    cmd: Seq<char>,
)
    requires
        text == cmd,
    ensures
        route_of(Some(text), image_count, enabled, cmd) != Route::AutoModerate,
        image_count > 0 ==> route_of(Some(text), image_count, enabled, cmd) == Route::Annotate,
{
}

/// The switch an admin message asks for: `Some(true)` for the start command,
/// `Some(false)` for the stop command (exact text), `None` otherwise.
pub open spec fn admin_switch(text: Seq<char>, start: Seq<char>, stop: Seq<char>) -> Option<bool> {
    if text == start {
        Some(true)
    } else if text == stop {
        Some(false)
    } else {
        None
    }
}

/// Handles an admin message in `group_id`: the start command turns
/// auto-moderation on, the stop command turns it off; anything else leaves
/// the whitelist as it is. Returns the switch that was set.
pub fn apply_admin_command(
    whitelist: &mut Whitelist,
    group_id: i64,
    text: &String,
    start_cmd: &String,
    stop_cmd: &String,
) -> (r: Option<bool>)
    ensures
        r == admin_switch(text@, start_cmd@, stop_cmd@),
        r is None ==> final(whitelist).groups@ == old(whitelist).groups@,
        r is Some ==> final(whitelist).groups@ == old(whitelist).groups@.insert(
            group_id,
            r.unwrap(),
        ),
{
    if *text == *start_cmd {
        whitelist.set(group_id, true);
        Some(true)
    } else if *text == *stop_cmd {
        whitelist.set(group_id, false);
        Some(false)
    } else {
        None
    }
}

} // verus!
