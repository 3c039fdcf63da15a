use vstd::prelude::*;
use vstd::utf8::encode_utf8;
use crate::cache::cached_for;
use crate::channels::{
    is_watched, lemma_remove_unwatches, without_channel, ChannelMap, MonitoredChannels,
};
use crate::image::{
    embed_has_image, holds_image, is_image_attachment, media_url, message_check_image, update_check_image, Message, MessageUpdateEvent,
};

verus! {

/// The custom emoji by which the bot marks a picture and by which users ask
/// for an evaluation.
pub const MAGNIFIER_EMOJI_ID: u64 = 1066602611303780393;

/// The emoji of a reaction: a custom emoji with its id, or any other kind.
#[derive(Debug, Clone, Copy, PartialEq, Eq, Structural)]
pub enum ReactionEmoji {
    Custom { id: u64 },
    Other,
}

/// What the bot reads of a gateway event.
pub enum GatewayEvent {
    /// A message was posted in `channel` of `guild`.
    MessageCreated { guild: Option<u64>, channel: u64, message: Message },
    /// A message in `channel` of `guild` was edited.
    MessageUpdated { guild: Option<u64>, channel: u64, update: MessageUpdateEvent },
    /// `user` (when known) reacted with `emoji` to a message in `channel` of
    /// `guild`.
    ReactionAdded { guild: Option<u64>, channel: u64, emoji: ReactionEmoji, user: Option<u64> },
    /// Any other event.
    Other,
}

/// What the bot does about an event.
#[derive(Debug, Clone, Copy, PartialEq, Eq, Structural)]
pub enum HandlerAction {
    /// Nothing.
    Ignore,
    /// React to the message of the event with the magnifier emoji.
    ReactWithMagnifier,
    /// Look the reacting user up; unless it is a bot, evaluate each picture
    /// of the message reacted to and reply with the outcome.
    EvaluateUnlessBot { user: u64 },
}

/// What the bot does about the event `event`, with the register `m` of
/// watched channels: a new or edited message with a picture in a watched
/// channel gets the magnifier; a magnifier reaction by a known user in a
/// watched channel leads to an evaluation; nothing else is acted on.
pub open spec fn decision(m: ChannelMap, event: GatewayEvent) -> HandlerAction {
    match event {
        GatewayEvent::MessageCreated { guild, channel, message } => {
            if is_watched(m, guild, channel) && holds_image(
                message.attachments@,
                message.embeds@,
            ) {
                HandlerAction::ReactWithMagnifier
            } else {
                HandlerAction::Ignore
            }
        },
        GatewayEvent::MessageUpdated { guild, channel, update } => {
            if is_watched(m, guild, channel) && holds_image(
                match update.attachments {
                    Some(a) => a@,
                    None => Seq::empty(),
                },
                match update.embeds {
                    Some(e) => e@,
                    None => Seq::empty(),
                },
            ) {
                HandlerAction::ReactWithMagnifier
            } else {
                HandlerAction::Ignore
            }
        },
        GatewayEvent::ReactionAdded { guild, channel, emoji, user } => {
            if emoji == (ReactionEmoji::Custom { id: MAGNIFIER_EMOJI_ID }) && is_watched(
                m,
                guild,
                channel,
            ) && user is Some {
                HandlerAction::EvaluateUnlessBot { user: user->0 }
            } else {
                HandlerAction::Ignore
            }
        },
        GatewayEvent::Other => HandlerAction::Ignore,
    }
}

/// Decides what to do about the event `event`.
pub fn decide_event(channels: &MonitoredChannels, event: &GatewayEvent) -> (action: HandlerAction)
    ensures
        action == decision(channels@, *event),
{
    match event {
        GatewayEvent::MessageCreated { guild, channel, message } => {
            if channels.is_monitored(*guild, *channel) && message_check_image(message) {
                HandlerAction::ReactWithMagnifier
            } else {
                HandlerAction::Ignore
            }
        },
        GatewayEvent::MessageUpdated { guild, channel, update } => {
            if channels.is_monitored(*guild, *channel) && update_check_image(update) {
                HandlerAction::ReactWithMagnifier
            } else {
                HandlerAction::Ignore
            }
        },
        GatewayEvent::ReactionAdded { guild, channel, emoji, user } => {
            match emoji {
                ReactionEmoji::Custom { id } => {
                    if *id != MAGNIFIER_EMOJI_ID {
                        return HandlerAction::Ignore;
                    }
                },
                ReactionEmoji::Other => {
                    return HandlerAction::Ignore;
                },
            }
            if !channels.is_monitored(*guild, *channel) {
                return HandlerAction::Ignore;
            }
            match user {
                Some(u) => HandlerAction::EvaluateUnlessBot { user: *u },
                None => HandlerAction::Ignore,
            }
        },
        GatewayEvent::Other => HandlerAction::Ignore,
    }
}

// ---------------------------------------------------------------------
// Replies about an evaluation
// ---------------------------------------------------------------------

/// The number of bytes of the UTF-8 encoding of `s`.
pub open spec fn utf8_len(s: Seq<char>) -> nat {
    encode_utf8(s).len()
}

/// The limit, in bytes, to which a reply is filled with result lines before
/// its closing fence.
pub open spec fn reply_fill_limit() -> int {
    1995
}

/// How many of the leading `lines` fit after `used` bytes: lines are taken
/// in order while the total stays within the limit; the first that does not
/// fit ends the reply.
pub open spec fn kept_lines(used: int, lines: Seq<Seq<char>>) -> nat
    decreases lines.len(),
{
    if lines.len() == 0 {
        0
    } else if used + utf8_len(lines[0]) > reply_fill_limit() {
        0
    } else {
        1 + kept_lines(used + utf8_len(lines[0]), lines.drop_first())
    }
}

/// The lines `lines` one after the other.
pub open spec fn concat(lines: Seq<Seq<char>>) -> Seq<char>
    decreases lines.len(),
{
    if lines.len() == 0 {
        Seq::empty()
    } else {
        concat(lines.drop_last()) + lines.last()
    }
}

/// The fence that opens and closes a reply.
pub open spec fn fence() -> Seq<char> {
    "```\n"@
}

/// The reply that lists the result lines `lines`: the leading lines that fit
/// within the limit, between two fences.
pub open spec fn reply_text(lines: Seq<Seq<char>>) -> Seq<char> {
    fence() + concat(lines.take(kept_lines(utf8_len(fence()) as int, lines) as int)) + fence()
}

proof fn lemma_utf8_len_add(a: Seq<char>, b: Seq<char>)
    ensures
        utf8_len(a + b) == utf8_len(a) + utf8_len(b),
    decreases a.len(),
{
    if a.len() == 0 {
        assert(a + b =~= b);
    } else {
        lemma_utf8_len_add(a.drop_first(), b);
        assert((a + b).drop_first() =~= a.drop_first() + b);
        assert((a + b)[0] == a[0]);
    }
}

proof fn lemma_fence_len()
    ensures
        utf8_len(fence()) == 4,
{
    reveal_strlit("```\n");
    let f = fence();
    assert(f.drop_first().drop_first().drop_first().drop_first() =~= Seq::<char>::empty());
    reveal_with_fuel(encode_utf8, 5);
}

/// Builds the reply that lists the result lines `lines` (each ending in its
/// own line break), keeping the leading lines while the reply stays within
/// the limit.
pub fn evaluation_reply(lines: &Vec<String>) -> (reply: String)
    requires
        forall|i: int| 0 <= i < lines.len() ==> utf8_len(#[trigger] lines@[i]@) <= usize::MAX,
    ensures
        reply@ == reply_text(lines.deep_view()),
{
    let ghost all = lines.deep_view();
    proof {
        lemma_fence_len();
    }
    let mut reply = "```\n".to_owned();
    let mut used: usize = 4;
    let mut i: usize = 0;
    assert(all.skip(0) =~= all);
    while i < lines.len()
        invariant
            all == lines.deep_view(),
            utf8_len(fence()) == 4,
            forall|j: int| 0 <= j < lines.len() ==> utf8_len(#[trigger] lines@[j]@) <= usize::MAX,
            i <= lines.len(),
            used <= reply_fill_limit(),
            kept_lines(4, all) == i + kept_lines(used as int, all.skip(i as int)),
            reply@ == fence() + concat(all.take(i as int)),
        decreases lines.len() - i,
    {
        let line = lines[i].as_str();
        let n: usize = line.len();
        assert(all[i as int] == lines@[i as int]@);
        assert(all.skip(i as int)[0] == all[i as int]);
        if n > 1995 - used {
            assert(kept_lines(used as int, all.skip(i as int)) == 0);
            assert(all.take(kept_lines(4, all) as int) =~= all.take(i as int));
            reply.append("```\n");
            return reply;
        }
        reply.append(line);
        used = used + n;
        assert(all.skip(i as int).drop_first() =~= all.skip(i + 1));
        assert(all.take(i + 1).drop_last() =~= all.take(i as int));
        i = i + 1;
    }
    assert(all.take(i as int) =~= all);
    assert(all.skip(i as int).len() == 0);
    reply.append("```\n");
    reply
}

/// The reply about an evaluation that failed with the code `code`.
pub open spec fn failure_text(code: i32) -> Seq<char> {
    if code == -5 {
        "Failed to start the evaluation subprocess"@
    } else if code == -1 {
        "Failed to get response from proxy_url"@
    } else if code == -2 {
        "Failed to retrieve file from proxy_url"@
    } else {
        "Failed to open file as image"@
    }
}

/// The reply about an evaluation that failed with one of the codes that the
/// evaluation reports.
pub fn evaluation_failure_message(code: i32) -> (m: &'static str)
    requires
        code == -5 || code == -1 || code == -2 || code == -3,
    ensures
        m@ == failure_text(code),
{
    match code {
        -5 => "Failed to start the evaluation subprocess",
        -1 => "Failed to get response from proxy_url",
        -2 => "Failed to retrieve file from proxy_url",
        _ => "Failed to open file as image",
    }
}

proof fn lemma_concat_prepend(l: Seq<char>, rest: Seq<Seq<char>>)
    ensures
        concat(seq![l] + rest) == l + concat(rest),
    decreases rest.len(),
{
    if rest.len() == 0 {
        assert(seq![l] + rest =~= seq![l]);
        let one = seq![l];
        assert(one.drop_last() =~= Seq::<Seq<char>>::empty());
        assert(concat(one.drop_last()) == Seq::<char>::empty());
        assert(concat(one) == concat(one.drop_last()) + one.last());
        assert(Seq::<char>::empty() + l =~= l);
        assert(l + concat(rest) =~= l);
    } else {
        lemma_concat_prepend(l, rest.drop_last());
        assert((seq![l] + rest).drop_last() =~= seq![l] + rest.drop_last());
        assert(l + concat(rest) =~= l + concat(rest.drop_last()) + rest.last());
    }
}

proof fn lemma_kept_lines_fit(used: int, lines: Seq<Seq<char>>)
    requires
        0 <= used <= reply_fill_limit(),
    ensures
        used + utf8_len(concat(lines.take(kept_lines(used, lines) as int))) <= reply_fill_limit(),
    decreases lines.len(),
{
    let k = kept_lines(used, lines);
    if k == 0 {
        assert(lines.take(0) =~= Seq::<Seq<char>>::empty());
        assert(encode_utf8(Seq::<char>::empty()).len() == 0);
    } else {
        let rest = lines.drop_first();
        let next = used + utf8_len(lines[0]);
        lemma_kept_lines_fit(next, rest);
        lemma_kept_lines_bound(used, lines);
        assert(lines.take(k as int) =~= seq![lines[0]] + rest.take(k - 1));
        lemma_concat_prepend(lines[0], rest.take(k - 1));
        lemma_utf8_len_add(lines[0], concat(rest.take(k - 1)));
    }
}

/// A reply about an evaluation never takes more than 1999 bytes, within the
/// 2000 that a chat message may hold.
pub proof fn lemma_reply_fits_in_message(lines: Seq<Seq<char>>)
    ensures
        utf8_len(reply_text(lines)) <= 1999,
{
    lemma_fence_len();
    let body = concat(lines.take(kept_lines(4, lines) as int));
    lemma_kept_lines_fit(4, lines);
    lemma_utf8_len_add(fence(), body);
    lemma_utf8_len_add(fence() + body, fence());
}

proof fn lemma_kept_lines_bound(used: int, lines: Seq<Seq<char>>)
    ensures
        kept_lines(used, lines) <= lines.len(),
    decreases lines.len(),
{
    if lines.len() > 0 {
        lemma_kept_lines_bound(used + utf8_len(lines[0]), lines.drop_first());
    }
}

/// The channel that an event happened in, if any.
pub open spec fn event_channel(event: GatewayEvent) -> Option<(Option<u64>, u64)> {
    match event {
        GatewayEvent::MessageCreated { guild, channel, .. } => Some((guild, channel)),
        GatewayEvent::MessageUpdated { guild, channel, .. } => Some((guild, channel)),
        GatewayEvent::ReactionAdded { guild, channel, .. } => Some((guild, channel)),
        GatewayEvent::Other => None,
    }
}

/// The bot acts on no event of a channel that the register does not watch;
/// in particular, once a channel is removed from the register, nothing that
/// happens in it gets a reaction or an evaluation.
pub proof fn lemma_unwatched_channel_ignored(m: ChannelMap, event: GatewayEvent)
    requires
        event_channel(event) matches Some(gc) && !is_watched(m, gc.0, gc.1),
    ensures
        decision(m, event) == HandlerAction::Ignore,
{
}

/// After removing a channel from the register, the events of that channel
/// are ignored.
pub proof fn lemma_removed_channel_ignored(
    m: ChannelMap,
    guild: Option<u64>,
    channel: u64,
    event: GatewayEvent,
)
    requires
        event_channel(event) == Some((guild, channel)),
    ensures
        decision(without_channel(m, guild, channel), event) == HandlerAction::Ignore,
{
    lemma_remove_unwatches(m, guild, channel, guild, channel);
}

// ---------------------------------------------------------------------
// After the reacting user is looked up
// ---------------------------------------------------------------------

/// What follows a reaction once the reacting user is known.
#[derive(Debug, Clone, Copy, PartialEq, Eq, Structural)]
pub enum ReactionFollowUp {
    /// Nothing: the message is not fetched, no picture is evaluated and no
    /// reply is sent.
    Ignore,
    /// Fetch the message reacted to, evaluate each of its pictures and reply
    /// about each.
    EvaluatePictures,
}

/// What follows the action `action` once the reacting user is known to be a
/// bot (`is_bot`) or not: pictures are evaluated only for an evaluation
/// request by a user that is not a bot.
pub open spec fn follow_up(action: HandlerAction, is_bot: bool) -> ReactionFollowUp {
    if action is EvaluateUnlessBot && !is_bot {
        ReactionFollowUp::EvaluatePictures
    } else {
        ReactionFollowUp::Ignore
    }
}

/// Decides what follows the action `action` once the reacting user has been
/// looked up and found to be a bot or not.
pub fn decide_after_user_lookup(action: HandlerAction, reacting_user_is_bot: bool) -> (f:
    ReactionFollowUp)
    ensures
        f == follow_up(action, reacting_user_is_bot),
{
    match action {
        HandlerAction::EvaluateUnlessBot { .. } => {
            if reacting_user_is_bot {
                ReactionFollowUp::Ignore
            } else {
                ReactionFollowUp::EvaluatePictures
            }
        },
        _ => ReactionFollowUp::Ignore,
    }
}

/// A reaction by a bot never leads to an evaluation, whatever the emoji and
/// the channel.
pub proof fn lemma_bot_reaction_ignored(m: ChannelMap, event: GatewayEvent)
    ensures
        follow_up(decision(m, event), true) == ReactionFollowUp::Ignore,
{
}

/// Pictures are evaluated exactly for a magnifier reaction, in a watched
/// channel, by a known user that is not a bot.
pub proof fn lemma_evaluation_only_on_request(m: ChannelMap, event: GatewayEvent, is_bot: bool)
    ensures
        follow_up(decision(m, event), is_bot) == ReactionFollowUp::EvaluatePictures <==> (
        event matches GatewayEvent::ReactionAdded { guild, channel, emoji, user } && emoji == (
        ReactionEmoji::Custom { id: MAGNIFIER_EMOJI_ID }) && is_watched(m, guild, channel)
            && user is Some && !is_bot),
{
}

// ---------------------------------------------------------------------
// The cache of evaluation results
// ---------------------------------------------------------------------

/// What to do for one picture, given what the cache holds for its address.
pub enum PictureStep<V> {
    /// Reply with the cached result.
    ReplyFromCache(V),
    /// Have the picture evaluated.
    Evaluate,
}

/// What to do for a picture whose address the cache maps to `cached`.
pub open spec fn picture_step_spec<V>(cached: Option<V>) -> PictureStep<V> {
    match cached {
        Some(v) => PictureStep::ReplyFromCache(v),
        None => PictureStep::Evaluate,
    }
}

/// Decides what to do for a picture from what the cache holds for its
/// address.
pub fn picture_step<V>(cached: Option<V>) -> (step: PictureStep<V>)
    ensures
        step == picture_step_spec(cached),
{
    match cached {
        Some(v) => PictureStep::ReplyFromCache(v),
        None => PictureStep::Evaluate,
    }
}

/// What follows an evaluation.
pub enum EvaluationFollowUp<V> {
    /// Store the result in the cache under the picture's address, and reply
    /// with it.
    StoreAndReply(V),
    /// Leave the cache as it is and reply about the failure with this code.
    ReplyFailure(i32),
}

/// What follows the evaluation outcome `outcome`.
pub open spec fn evaluation_follow_up_spec<V>(outcome: Result<V, i32>) -> EvaluationFollowUp<V> {
    match outcome {
        Ok(v) => EvaluationFollowUp::StoreAndReply(v),
        Err(code) => EvaluationFollowUp::ReplyFailure(code),
    }
}

/// The cache `cache` after the follow-up `f` of the evaluation of the
/// picture at `url`: a success is stored, a failure leaves it unchanged.
pub open spec fn cache_after<V>(
    cache: Map<Seq<char>, V>,
    url: Seq<char>,
    f: EvaluationFollowUp<V>,
) -> Map<Seq<char>, V> {
    match f {
        EvaluationFollowUp::StoreAndReply(v) => cache.insert(url, v),
        EvaluationFollowUp::ReplyFailure(_) => cache,
    }
}

/// Decides what follows the evaluation outcome `outcome`: the result of an
/// evaluation that succeeded, or the failure code of one that did not.
pub fn evaluation_follow_up<V>(outcome: Result<V, i32>) -> (f: EvaluationFollowUp<V>)
    ensures
        f == evaluation_follow_up_spec(outcome),
{
    match outcome {
        Ok(v) => EvaluationFollowUp::StoreAndReply(v),
        Err(code) => EvaluationFollowUp::ReplyFailure(code),
    }
}

/// Once a picture has been evaluated successfully and its result inserted in
/// the cache (`ResultCache::insert` gives exactly `cache_after`), the next
/// request for it is answered from the cache with that result; after a failure, it is
/// evaluated again (unless something else stored it), and no other address
/// is affected either way.
pub proof fn lemma_cache_read_after_evaluation<V>(
    cache: Map<Seq<char>, V>,
    url: Seq<char>,
    outcome: Result<V, i32>,
    other: Seq<char>,
)
    ensures
        outcome matches Ok(v) ==> picture_step_spec(
            cached_for(cache_after(cache, url, evaluation_follow_up_spec(outcome)), url),
        ) == PictureStep::<V>::ReplyFromCache(v),
        outcome is Err ==> cache_after(cache, url, evaluation_follow_up_spec(outcome)) == cache,
        other != url ==> cached_for(
            cache_after(cache, url, evaluation_follow_up_spec(outcome)),
            other,
        ) == cached_for(cache, other),
{
}

/// In a watched channel, an edit is marked exactly when what it carries
/// shows a picture, an absent list counting as empty; in particular an
/// embed whose picture or thumbnail has a cached copy is enough, whether
/// the edit carries attachments or not.
pub proof fn lemma_edit_marked_when_it_shows_a_picture(
    m: ChannelMap,
    guild: Option<u64>,
    channel: u64,
    update: MessageUpdateEvent,
)
    requires
        is_watched(m, guild, channel),
    ensures
        (decision(m, GatewayEvent::MessageUpdated { guild, channel, update })
            == HandlerAction::ReactWithMagnifier) == holds_image(
            match update.attachments {
                Some(a) => a@,
                None => Seq::empty(),
            },
            match update.embeds {
                Some(e) => e@,
                None => Seq::empty(),
            },
        ),
        (update.embeds matches Some(e) && exists|i: int|
            0 <= i < e@.len() && (media_url(#[trigger] e@[i].image) is Some || media_url(
                e@[i].thumbnail,
            ) is Some)) ==> decision(m, GatewayEvent::MessageUpdated { guild, channel, update })
            == HandlerAction::ReactWithMagnifier,
        (update.attachments matches Some(a) && exists|i: int|
            0 <= i < a@.len() && is_image_attachment(#[trigger] a@[i])) ==> decision(
            m,
            GatewayEvent::MessageUpdated { guild, channel, update },
        ) == HandlerAction::ReactWithMagnifier,
{
    if update.embeds is Some {
        let e = update.embeds->0;
        if exists|i: int|
            0 <= i < e@.len() && (media_url(#[trigger] e@[i].image) is Some || media_url(
                e@[i].thumbnail,
            ) is Some) {
            let i = choose|i: int|
                0 <= i < e@.len() && (media_url(#[trigger] e@[i].image) is Some || media_url(
                    e@[i].thumbnail,
                ) is Some);
            assert(embed_has_image(e@[i]));
        }
    }
}

/// In a watched channel, a new message is marked exactly when it shows a
/// picture.
pub proof fn lemma_message_marked_when_it_shows_a_picture(
    m: ChannelMap,
    guild: Option<u64>,
    channel: u64,
    message: Message,
)
    requires
        is_watched(m, guild, channel),
    ensures
        (decision(m, GatewayEvent::MessageCreated { guild, channel, message })
            == HandlerAction::ReactWithMagnifier) == holds_image(
            message.attachments@,
            message.embeds@,
        ),
{
}

proof fn lemma_kept_lines_maximal(used: int, lines: Seq<Seq<char>>)
    requires
        0 <= used <= reply_fill_limit(),
    ensures
        kept_lines(used, lines) < lines.len() ==> used + utf8_len(
            concat(lines.take(kept_lines(used, lines) as int)),
        ) + utf8_len(lines[kept_lines(used, lines) as int]) > reply_fill_limit(),
    decreases lines.len(),
{
    let k = kept_lines(used, lines);
    if k < lines.len() {
        if k == 0 {
            assert(lines.take(0) =~= Seq::<Seq<char>>::empty());
            assert(encode_utf8(Seq::<char>::empty()).len() == 0);
        } else {
            let rest = lines.drop_first();
            let next = used + utf8_len(lines[0]);
            lemma_kept_lines_maximal(next, rest);
            lemma_kept_lines_bound(used, lines);
            assert(lines.take(k as int) =~= seq![lines[0]] + rest.take(k - 1));
            lemma_concat_prepend(lines[0], rest.take(k - 1));
            lemma_utf8_len_add(lines[0], concat(rest.take(k - 1)));
            assert(lines[k as int] == rest[k - 1]);
        }
    }
}

/// A reply keeps the leading result lines, in order, as long as they fit:
/// its lines take at most 1995 bytes with the opening fence, and when a line
/// is left out, adding it would have gone over 1995 bytes.
pub proof fn lemma_reply_keeps_what_fits(lines: Seq<Seq<char>>)
    ensures
        ({
            let k = kept_lines(4, lines);
            let body = concat(lines.take(k as int));
            &&& k <= lines.len()
            &&& reply_text(lines) == fence() + body + fence()
            &&& 4 + utf8_len(body) <= 1995
            &&& k < lines.len() ==> 4 + utf8_len(body) + utf8_len(lines[k as int]) > 1995
        }),
{
    lemma_kept_lines_bound(4, lines);
    lemma_kept_lines_fit(4, lines);
    lemma_kept_lines_maximal(4, lines);
    lemma_fence_len();
}

} // verus!
