use image_notify_bot::channels::{channel_add, MonitoredChannels};
use image_notify_bot::handler::{
    decide_after_user_lookup, decide_event, evaluation_failure_message, evaluation_follow_up,
    evaluation_reply, picture_step, EvaluationFollowUp, GatewayEvent, HandlerAction, PictureStep,
    ReactionEmoji, ReactionFollowUp, MAGNIFIER_EMOJI_ID,
};
use image_notify_bot::cache::ResultCache;
use std::collections::BTreeMap;
use image_notify_bot::image::{Attachment, Message, MessageUpdateEvent};

fn picture_message() -> Message {
    Message {
        attachments: vec![Attachment {
            content_type: Some("image/jpeg".to_string()),
            proxy_url: "p".to_string(),
        }],
        embeds: vec![],
    }
}

fn watched() -> MonitoredChannels {
    let mut m = MonitoredChannels::new();
    channel_add(&mut m, Some(1), 10);
    m
}

#[test]
fn new_messages() {
    let m = watched();
    let e = GatewayEvent::MessageCreated { guild: Some(1), channel: 10, message: picture_message() };
    assert_eq!(decide_event(&m, &e), HandlerAction::ReactWithMagnifier);
    let e = GatewayEvent::MessageCreated { guild: Some(1), channel: 11, message: picture_message() };
    assert_eq!(decide_event(&m, &e), HandlerAction::Ignore);
    let e = GatewayEvent::MessageCreated {
        guild: Some(1),
        channel: 10,
        message: Message { attachments: vec![], embeds: vec![] },
    };
    assert_eq!(decide_event(&m, &e), HandlerAction::Ignore);
}

#[test]
fn edited_messages() {
    let m = watched();
    let update = MessageUpdateEvent { attachments: Some(picture_message().attachments), embeds: None };
    let e = GatewayEvent::MessageUpdated { guild: Some(1), channel: 10, update };
    assert_eq!(decide_event(&m, &e), HandlerAction::ReactWithMagnifier);
    let update = MessageUpdateEvent { attachments: None, embeds: None };
    let e = GatewayEvent::MessageUpdated { guild: Some(1), channel: 10, update };
    assert_eq!(decide_event(&m, &e), HandlerAction::Ignore);
    let update = MessageUpdateEvent { attachments: Some(picture_message().attachments), embeds: None };
    let e = GatewayEvent::MessageUpdated { guild: Some(2), channel: 10, update };
    assert_eq!(decide_event(&m, &e), HandlerAction::Ignore);
}

#[test]
fn reactions() {
    let m = watched();
    let magnifier = ReactionEmoji::Custom { id: MAGNIFIER_EMOJI_ID };
    let e = GatewayEvent::ReactionAdded { guild: Some(1), channel: 10, emoji: magnifier, user: Some(77) };
    assert_eq!(decide_event(&m, &e), HandlerAction::EvaluateUnlessBot { user: 77 });
    let e = GatewayEvent::ReactionAdded { guild: Some(1), channel: 10, emoji: magnifier, user: None };
    assert_eq!(decide_event(&m, &e), HandlerAction::Ignore);
    let e = GatewayEvent::ReactionAdded { guild: Some(1), channel: 12, emoji: magnifier, user: Some(77) };
    assert_eq!(decide_event(&m, &e), HandlerAction::Ignore);
    let other = ReactionEmoji::Custom { id: 5 };
    let e = GatewayEvent::ReactionAdded { guild: Some(1), channel: 10, emoji: other, user: Some(77) };
    assert_eq!(decide_event(&m, &e), HandlerAction::Ignore);
    let e = GatewayEvent::ReactionAdded {
        guild: Some(1),
        channel: 10,
        emoji: ReactionEmoji::Other,
        user: Some(77),
    };
    assert_eq!(decide_event(&m, &e), HandlerAction::Ignore);
    assert_eq!(decide_event(&m, &GatewayEvent::Other), HandlerAction::Ignore);
}

#[test]
fn reply_lists_lines_between_fences() {
    let lines = vec!["0001:        0.9\n".to_string(), "0002:        0.5\n".to_string()];
    assert_eq!(
        evaluation_reply(&lines),
        "```\n0001:        0.9\n0002:        0.5\n```\n"
    );
    assert_eq!(evaluation_reply(&vec![]), "```\n```\n");
}

#[test]
fn reply_stops_at_first_line_that_does_not_fit() {
    let line = format!("{}\n", "x".repeat(99));
    let mut lines: Vec<String> = (0..30).map(|_| line.clone()).collect();
    lines.insert(19, "y\n".to_string());
    let reply = evaluation_reply(&lines);
    // 4 bytes of fence + 19 lines of 100 bytes = 1904; the short line fits
    // (1906), the next 100-byte line does not (2006 > 1995).
    let expected = format!("```\n{}y\n```\n", line.repeat(19));
    assert_eq!(reply, expected);
    assert!(reply.len() <= 1999);
}

#[test]
fn reply_counts_bytes_not_chars() {
    let wide = format!("{}\n", "\u{3042}".repeat(400));
    let lines = vec![wide.clone(), wide.clone()];
    // 1201 bytes each: the first fits after the fence, the second does not.
    assert_eq!(evaluation_reply(&lines), format!("```\n{}```\n", wide));
}

#[test]
fn reply_exact_limit() {
    let exact = format!("{}\n", "z".repeat(1990));
    assert_eq!(exact.len() + 4, 1995);
    assert_eq!(evaluation_reply(&vec![exact.clone()]), format!("```\n{}```\n", exact));
    let over = format!("{}\n", "z".repeat(1991));
    assert_eq!(evaluation_reply(&vec![over]), "```\n```\n");
}

#[test]
fn failure_messages() {
    assert_eq!(evaluation_failure_message(-5), "Failed to start the evaluation subprocess");
    assert_eq!(evaluation_failure_message(-1), "Failed to get response from proxy_url");
    assert_eq!(evaluation_failure_message(-2), "Failed to retrieve file from proxy_url");
    assert_eq!(evaluation_failure_message(-3), "Failed to open file as image");
}

#[test]
fn removed_channel_is_ignored() {
    let mut m = watched();
    let magnifier = ReactionEmoji::Custom { id: MAGNIFIER_EMOJI_ID };
    let reaction = GatewayEvent::ReactionAdded { guild: Some(1), channel: 10, emoji: magnifier, user: Some(3) };
    assert_eq!(decide_event(&m, &reaction), HandlerAction::EvaluateUnlessBot { user: 3 });
    assert!(image_notify_bot::channels::channel_remove(&mut m, Some(1), 10));
    assert_eq!(decide_event(&m, &reaction), HandlerAction::Ignore);
    let e = GatewayEvent::MessageCreated { guild: Some(1), channel: 10, message: picture_message() };
    assert_eq!(decide_event(&m, &e), HandlerAction::Ignore);
}

#[test]
fn bot_reactions_are_ignored() {
    let m = watched();
    let magnifier = ReactionEmoji::Custom { id: MAGNIFIER_EMOJI_ID };
    let e = GatewayEvent::ReactionAdded { guild: Some(1), channel: 10, emoji: magnifier, user: Some(8) };
    let action = decide_event(&m, &e);
    assert_eq!(decide_after_user_lookup(action, true), ReactionFollowUp::Ignore);
    assert_eq!(decide_after_user_lookup(action, false), ReactionFollowUp::EvaluatePictures);
    assert_eq!(decide_after_user_lookup(HandlerAction::Ignore, false), ReactionFollowUp::Ignore);
    assert_eq!(
        decide_after_user_lookup(HandlerAction::ReactWithMagnifier, false),
        ReactionFollowUp::Ignore
    );
}

#[test]
fn cache_steps() {
    let mut cache: BTreeMap<String, Vec<u32>> = BTreeMap::new();
    let url = "https://media/p.png";
    assert!(matches!(picture_step(cache.get(url).cloned()), PictureStep::Evaluate));
    match evaluation_follow_up::<Vec<u32>>(Err(-2)) {
        EvaluationFollowUp::ReplyFailure(code) => assert_eq!(code, -2),
        EvaluationFollowUp::StoreAndReply(_) => panic!("a failure is not stored"),
    }
    assert!(matches!(picture_step(cache.get(url).cloned()), PictureStep::Evaluate));
    match evaluation_follow_up::<Vec<u32>>(Ok(vec![3, 1])) {
        EvaluationFollowUp::StoreAndReply(v) => {
            cache.insert(url.to_string(), v);
        }
        EvaluationFollowUp::ReplyFailure(_) => panic!("a success is stored"),
    }
    match picture_step(cache.get(url).cloned()) {
        PictureStep::ReplyFromCache(v) => assert_eq!(v, vec![3, 1]),
        PictureStep::Evaluate => panic!("the stored result is used"),
    }
    assert!(matches!(picture_step(cache.get("other").cloned()), PictureStep::Evaluate));
}

#[test]
fn result_cache_reads_back_writes() {
    let mut cache: ResultCache<Vec<u32>> = ResultCache::new();
    let a = "https://media/a.png".to_string();
    let b = "https://media/b.png".to_string();
    assert!(cache.get(&a).is_none());
    cache.insert(a.clone(), vec![1]);
    assert_eq!(cache.get(&a), Some(&vec![1]));
    assert!(cache.get(&b).is_none());
    cache.insert(b.clone(), vec![2]);
    cache.insert(a.clone(), vec![3]);
    assert_eq!(cache.get(&a), Some(&vec![3]));
    assert_eq!(cache.get(&b), Some(&vec![2]));
    assert_eq!(cache.entries.len(), 2);
    // With an evaluation step: a success is stored and found next time.
    let c = "https://media/c.png".to_string();
    match picture_step(cache.get(&c).cloned()) {
        PictureStep::Evaluate => match evaluation_follow_up::<Vec<u32>>(Ok(vec![9])) {
            EvaluationFollowUp::StoreAndReply(v) => cache.insert(c.clone(), v),
            EvaluationFollowUp::ReplyFailure(_) => panic!("a success is stored"),
        },
        PictureStep::ReplyFromCache(_) => panic!("nothing was cached"),
    }
    assert!(matches!(picture_step(cache.get(&c).cloned()), PictureStep::ReplyFromCache(v) if v == vec![9]));
}
