use image_notify_bot::image::{
    is_image_content_type, message_check_image, message_list_images, update_check_image,
    Attachment, Embed, EmbedMedia, Message, MessageUpdateEvent,
};

fn attachment(t: Option<&str>, url: &str) -> Attachment {
    Attachment { content_type: t.map(|s| s.to_string()), proxy_url: url.to_string() }
}

fn media(url: Option<&str>) -> Option<EmbedMedia> {
    Some(EmbedMedia { proxy_url: url.map(|s| s.to_string()) })
}

#[test]
fn content_types() {
    for t in ["image/jpeg", "image/png", "image/gif", "image/webp"] {
        assert!(is_image_content_type(&t.to_string()));
    }
    for t in ["image/svg+xml", "video/mp4", "IMAGE/PNG", "image/png; x", ""] {
        assert!(!is_image_content_type(&t.to_string()));
    }
}

#[test]
fn message_images_are_listed_in_order() {
    let message = Message {
        attachments: vec![
            attachment(Some("text/plain"), "a0"),
            attachment(Some("image/png"), "a1"),
            attachment(None, "a2"),
            attachment(Some("image/webp"), "a3"),
        ],
        embeds: vec![
            Embed { image: media(Some("e0i")), thumbnail: media(Some("e0t")) },
            Embed { image: media(None), thumbnail: None },
            Embed { image: None, thumbnail: media(Some("e2t")) },
        ],
    };
    assert!(message_check_image(&message));
    assert_eq!(message_list_images(&message), vec!["a1", "a3", "e0i", "e0t", "e2t"]);
}

#[test]
fn message_without_images() {
    let message = Message {
        attachments: vec![attachment(Some("video/mp4"), "v"), attachment(None, "n")],
        embeds: vec![Embed { image: media(None), thumbnail: media(None) }],
    };
    assert!(!message_check_image(&message));
    assert!(message_list_images(&message).is_empty());
    let empty = Message { attachments: vec![], embeds: vec![] };
    assert!(!message_check_image(&empty));
    assert!(message_list_images(&empty).is_empty());
}

#[test]
fn embed_thumbnail_alone_counts() {
    let message = Message {
        attachments: vec![],
        embeds: vec![Embed { image: None, thumbnail: media(Some("t")) }],
    };
    assert!(message_check_image(&message));
    assert_eq!(message_list_images(&message), vec!["t"]);
}

#[test]
fn updates() {
    let none = MessageUpdateEvent { attachments: None, embeds: None };
    assert!(!update_check_image(&none));
    let with_attachment = MessageUpdateEvent {
        attachments: Some(vec![attachment(Some("image/gif"), "g")]),
        embeds: None,
    };
    assert!(update_check_image(&with_attachment));
    let with_embed = MessageUpdateEvent {
        attachments: Some(vec![attachment(Some("text/plain"), "x")]),
        embeds: Some(vec![Embed { image: media(Some("i")), thumbnail: None }]),
    };
    assert!(update_check_image(&with_embed));
    let without = MessageUpdateEvent {
        attachments: Some(vec![]),
        embeds: Some(vec![Embed { image: media(None), thumbnail: None }]),
    };
    assert!(!update_check_image(&without));
}
