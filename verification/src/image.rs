use vstd::prelude::*;

verus! {

/// A file attached to a message: its declared media type, when it has one,
/// and the address of its cached copy.
pub struct Attachment {
    pub content_type: Option<String>,
    pub proxy_url: String,
}

/// A picture of an embed: the address of its cached copy, when it has one.
pub struct EmbedMedia {
    pub proxy_url: Option<String>,
}

/// An embed of a message, with its main picture and its thumbnail.
pub struct Embed {
    pub image: Option<EmbedMedia>,
    pub thumbnail: Option<EmbedMedia>,
}

/// What the bot reads of a message: its attachments and its embeds.
pub struct Message {
    pub attachments: Vec<Attachment>,
    pub embeds: Vec<Embed>,
}

/// What the bot reads of an edit of a message: the attachments and the
/// embeds, when the edit carries them.
pub struct MessageUpdateEvent {
    pub attachments: Option<Vec<Attachment>>,
    pub embeds: Option<Vec<Embed>>,
}

/// Whether `t` is one of the picture media types that the bot looks at.
pub open spec fn is_image_type(t: Seq<char>) -> bool {
    ||| t == "image/jpeg"@
    ||| t == "image/png"@
    ||| t == "image/gif"@
    ||| t == "image/webp"@
}

/// Whether the attachment `a` is a picture.
pub open spec fn is_image_attachment(a: Attachment) -> bool {
    a.content_type matches Some(t) && is_image_type(t@)
}

/// The address of the cached copy of the embed picture `m`, if any.
pub open spec fn media_url(m: Option<EmbedMedia>) -> Option<Seq<char>> {
    match m {
        Some(media) => match media.proxy_url {
            Some(u) => Some(u@),
            None => None,
        },
        None => None,
    }
}

/// Whether the embed `e` shows a picture with a cached copy.
pub open spec fn embed_has_image(e: Embed) -> bool {
    media_url(e.image) is Some || media_url(e.thumbnail) is Some
}

/// Whether the attachments `a` and the embeds `e` hold a picture.
pub open spec fn holds_image(a: Seq<Attachment>, e: Seq<Embed>) -> bool {
    (exists|i: int| 0 <= i < a.len() && is_image_attachment(#[trigger] a[i])) || (exists|i: int|
        0 <= i < e.len() && embed_has_image(#[trigger] e[i]))
}

/// The addresses of the pictures among the attachments `a`, in order.
pub open spec fn attachment_image_urls(a: Seq<Attachment>) -> Seq<Seq<char>>
    decreases a.len(),
{
    if a.len() == 0 {
        Seq::empty()
    } else {
        let rest = attachment_image_urls(a.drop_last());
        if is_image_attachment(a.last()) {
            rest.push(a.last().proxy_url@)
        } else {
            rest
        }
    }
}

/// The addresses of the pictures of one embed: its main picture, then its
/// thumbnail.
pub open spec fn embed_urls(e: Embed) -> Seq<Seq<char>> {
    let main = match media_url(e.image) {
        Some(u) => seq![u],
        None => Seq::empty(),
    };
    let thumb = match media_url(e.thumbnail) {
        Some(u) => seq![u],
        None => Seq::empty(),
    };
    main + thumb
}

/// The addresses of the pictures of the embeds `e`, in order.
pub open spec fn embed_image_urls(e: Seq<Embed>) -> Seq<Seq<char>>
    decreases e.len(),
{
    if e.len() == 0 {
        Seq::empty()
    } else {
        embed_image_urls(e.drop_last()) + embed_urls(e.last())
    }
}

/// Whether `t` is one of the picture media types that the bot looks at.
pub fn is_image_content_type(t: &String) -> (b: bool)
    ensures
        b == is_image_type(t@),
{
    *t == "image/jpeg".to_owned() || *t == "image/png".to_owned() || *t == "image/gif".to_owned()
        || *t == "image/webp".to_owned()
}

fn attachment_is_image(a: &Attachment) -> (b: bool)
    ensures
        b == is_image_attachment(*a),
{
    match &a.content_type {
        Some(t) => is_image_content_type(t),
        None => false,
    }
}

fn media_has_url(m: &Option<EmbedMedia>) -> (b: bool)
    ensures
        b == (media_url(*m) is Some),
{
    match m {
        Some(media) => media.proxy_url.is_some(),
        None => false,
    }
}

fn holds_image_exec(attachments: &Vec<Attachment>, embeds: &Vec<Embed>) -> (b: bool)
    ensures
        b == holds_image(attachments@, embeds@),
{
    let mut i: usize = 0;
    while i < attachments.len()
        invariant
            i <= attachments.len(),
            forall|j: int| 0 <= j < i ==> !is_image_attachment(#[trigger] attachments@[j]),
        decreases attachments.len() - i,
    {
        if attachment_is_image(&attachments[i]) {
            return true;
        }
        i = i + 1;
    }
    let mut k: usize = 0;
    while k < embeds.len()
        invariant
            k <= embeds.len(),
            forall|j: int| 0 <= j < k ==> !embed_has_image(#[trigger] embeds@[j]),
        decreases embeds.len() - k,
    {
        if media_has_url(&embeds[k].image) || media_has_url(&embeds[k].thumbnail) {
            assert(embed_has_image(embeds@[k as int]));
            return true;
        }
        k = k + 1;
    }
    false
}

/// Whether the message shows a picture: an attachment of a picture media
/// type, or an embed whose picture or thumbnail has a cached copy.
pub fn message_check_image(message: &Message) -> (b: bool)
    ensures
        b == holds_image(message.attachments@, message.embeds@),
{
    holds_image_exec(&message.attachments, &message.embeds)
}

/// Whether the edit of a message shows a picture, among the attachments and
/// embeds that it carries.
pub fn update_check_image(update: &MessageUpdateEvent) -> (b: bool)
    ensures
        b == holds_image(
            match update.attachments {
                Some(a) => a@,
                None => Seq::empty(),
            },
            match update.embeds {
                Some(e) => e@,
                None => Seq::empty(),
            },
        ),
{
    let empty_attachments: Vec<Attachment> = Vec::new();
    let empty_embeds: Vec<Embed> = Vec::new();
    let attachments = match &update.attachments {
        Some(a) => a,
        None => &empty_attachments,
    };
    let embeds = match &update.embeds {
        Some(e) => e,
        None => &empty_embeds,
    };
    holds_image_exec(attachments, embeds)
}

/// The addresses of the pictures of the message: those of the picture
/// attachments, in order, then for each embed in order the address of its
/// picture and that of its thumbnail, where they have one.
pub fn message_list_images<'a>(message: &'a Message) -> (urls: Vec<&'a str>)
    ensures
        urls@.map_values(|u: &str| u@) == attachment_image_urls(message.attachments@)
            + embed_image_urls(message.embeds@),
{
    let mut urls: Vec<&'a str> = Vec::new();
    let mut i: usize = 0;
    while i < message.attachments.len()
        invariant
            i <= message.attachments.len(),
            urls@.map_values(|u: &str| u@) == attachment_image_urls(
                message.attachments@.take(i as int),
            ),
        decreases message.attachments.len() - i,
    {
        let a = &message.attachments[i];
        assert(message.attachments@.take(i + 1).drop_last() =~= message.attachments@.take(
            i as int,
        ));
        if attachment_is_image(a) {
            urls.push(a.proxy_url.as_str());
        }
        assert(urls@.map_values(|u: &str| u@) =~= attachment_image_urls(
            message.attachments@.take(i + 1),
        ));
        i = i + 1;
    }
    assert(message.attachments@.take(i as int) =~= message.attachments@);
    let ghost from_attachments = urls@.map_values(|u: &str| u@);
    let mut k: usize = 0;
    while k < message.embeds.len()
        invariant
            k <= message.embeds.len(),
            from_attachments == attachment_image_urls(message.attachments@),
            urls@.map_values(|u: &str| u@) == from_attachments + embed_image_urls(
                message.embeds@.take(k as int),
            ),
        decreases message.embeds.len() - k,
    {
        let e = &message.embeds[k];
        let ghost before = urls@.map_values(|u: &str| u@);
        assert(message.embeds@.take(k + 1).drop_last() =~= message.embeds@.take(k as int));
        if let Some(media) = &e.image {
            if let Some(u) = &media.proxy_url {
                urls.push(u.as_str());
            }
        }
        let ghost mid = urls@.map_values(|u: &str| u@);
        if let Some(media) = &e.thumbnail {
            if let Some(u) = &media.proxy_url {
                urls.push(u.as_str());
            }
        }
        assert(urls@.map_values(|u: &str| u@) =~= before + embed_urls(*e));
        assert(urls@.map_values(|u: &str| u@) =~= from_attachments + embed_image_urls(
            message.embeds@.take(k + 1),
        ));
        k = k + 1;
    }
    assert(message.embeds@.take(k as int) =~= message.embeds@);
    urls
}


proof fn lemma_attachment_urls_nonempty(a: Seq<Attachment>)
    ensures
        attachment_image_urls(a).len() > 0 <==> exists|i: int|
            0 <= i < a.len() && is_image_attachment(#[trigger] a[i]),
    decreases a.len(),
{
    if a.len() > 0 {
        let r = a.drop_last();
        lemma_attachment_urls_nonempty(r);
        if exists|i: int| 0 <= i < r.len() && is_image_attachment(#[trigger] r[i]) {
            let i = choose|i: int| 0 <= i < r.len() && is_image_attachment(#[trigger] r[i]);
            assert(a[i] == r[i]);
        }
        if exists|i: int| 0 <= i < a.len() && is_image_attachment(#[trigger] a[i]) {
            let i = choose|i: int| 0 <= i < a.len() && is_image_attachment(#[trigger] a[i]);
            if i < a.len() - 1 {
                assert(r[i] == a[i]);
            }
        }
    }
}

proof fn lemma_embed_urls_nonempty(e: Seq<Embed>)
    ensures
        embed_image_urls(e).len() > 0 <==> exists|i: int|
            0 <= i < e.len() && embed_has_image(#[trigger] e[i]),
    decreases e.len(),
{
    if e.len() > 0 {
        let r = e.drop_last();
        lemma_embed_urls_nonempty(r);
        if exists|i: int| 0 <= i < r.len() && embed_has_image(#[trigger] r[i]) {
            let i = choose|i: int| 0 <= i < r.len() && embed_has_image(#[trigger] r[i]);
            assert(e[i] == r[i]);
        }
        if exists|i: int| 0 <= i < e.len() && embed_has_image(#[trigger] e[i]) {
            let i = choose|i: int| 0 <= i < e.len() && embed_has_image(#[trigger] e[i]);
            if i < e.len() - 1 {
                assert(r[i] == e[i]);
            }
        }
    }
}

/// A message shows a picture exactly when it has the address of at least one
/// picture to list.
pub proof fn lemma_check_agrees_with_list(message: Message)
    ensures
        holds_image(message.attachments@, message.embeds@) <==> (attachment_image_urls(
            message.attachments@,
        ) + embed_image_urls(message.embeds@)).len() > 0,
{
    lemma_attachment_urls_nonempty(message.attachments@);
    lemma_embed_urls_nonempty(message.embeds@);
}

// ---------------------------------------------------------------------
// Laws of picture detection and listing
// ---------------------------------------------------------------------

/// A content type counts as a picture exactly when it is `image/` followed
/// by one of the subtypes jpeg, png, gif and webp; so no type outside
/// `image/` ever does.
pub proof fn lemma_picture_types(t: Seq<char>)
    ensures
        is_image_type(t) <==> (t.len() > 6 && t.take(6) == "image/"@ && (t.skip(6) == "jpeg"@
            || t.skip(6) == "png"@ || t.skip(6) == "gif"@ || t.skip(6) == "webp"@)),
        is_image_type(t) ==> t.take(6) == "image/"@,
{
    reveal_strlit("image/");
    reveal_strlit("image/jpeg");
    reveal_strlit("image/png");
    reveal_strlit("image/gif");
    reveal_strlit("image/webp");
    reveal_strlit("jpeg");
    reveal_strlit("png");
    reveal_strlit("gif");
    reveal_strlit("webp");
    if t.len() > 6 && t.take(6) == "image/"@ {
        assert(t =~= t.take(6) + t.skip(6));
        assert("image/jpeg"@ =~= "image/"@ + "jpeg"@);
        assert("image/png"@ =~= "image/"@ + "png"@);
        assert("image/gif"@ =~= "image/"@ + "gif"@);
        assert("image/webp"@ =~= "image/"@ + "webp"@);
    }
    if t == "image/jpeg"@ {
        assert(t.take(6) =~= "image/"@);
        assert(t.skip(6) =~= "jpeg"@);
    }
    if t == "image/png"@ {
        assert(t.take(6) =~= "image/"@);
        assert(t.skip(6) =~= "png"@);
    }
    if t == "image/gif"@ {
        assert(t.take(6) =~= "image/"@);
        assert(t.skip(6) =~= "gif"@);
    }
    if t == "image/webp"@ {
        assert(t.take(6) =~= "image/"@);
        assert(t.skip(6) =~= "webp"@);
    }
}

/// The addresses listed for the attachments are those of the picture
/// attachments, all of them, in their order: every picture attachment has
/// its address listed, whatever its position, and nothing else is listed.
pub proof fn lemma_attachment_urls_are_the_pictures(a: Seq<Attachment>)
    ensures
        attachment_image_urls(a) == a.filter(|x: Attachment| is_image_attachment(x)).map_values(
            |x: Attachment| x.proxy_url@,
        ),
        attachment_image_urls(a).len() == a.filter(|x: Attachment| is_image_attachment(x)).len(),
        forall|i: int|
            0 <= i < a.len() && is_image_attachment(#[trigger] a[i]) ==> attachment_image_urls(
                a,
            ).contains(a[i].proxy_url@),
    decreases a.len(),
{
    let pred = |x: Attachment| is_image_attachment(x);
    let f = |x: Attachment| x.proxy_url@;
    reveal(Seq::filter);
    if a.len() > 0 {
        lemma_attachment_urls_are_the_pictures(a.drop_last());
        assert(attachment_image_urls(a) =~= a.filter(pred).map_values(f));
    } else {
        assert(attachment_image_urls(a) =~= a.filter(pred).map_values(f));
    }
    assert forall|i: int| 0 <= i < a.len() && is_image_attachment(#[trigger] a[i]) implies attachment_image_urls(
        a,
    ).contains(a[i].proxy_url@) by {
        broadcast use Seq::lemma_filter_contains;

        assert(pred(a[i]));
        assert(a.filter(pred).contains(a[i]));
        let j = choose|j: int| 0 <= j < a.filter(pred).len() && a.filter(pred)[j] == a[i];
        assert(a.filter(pred).map_values(f)[j] == a[i].proxy_url@);
    }
}

/// Every picture address of every embed is listed: that of its main picture
/// and that of its thumbnail, whatever the embed's position; and nothing
/// else is listed.
pub proof fn lemma_embed_urls_are_the_pictures(e: Seq<Embed>)
    ensures
        forall|i: int|
            0 <= i < e.len() && media_url(#[trigger] e[i].image) is Some ==> embed_image_urls(
                e,
            ).contains(media_url(e[i].image)->0),
        forall|i: int|
            0 <= i < e.len() && media_url(#[trigger] e[i].thumbnail) is Some ==> embed_image_urls(
                e,
            ).contains(media_url(e[i].thumbnail)->0),
        forall|k: int|
            0 <= k < embed_image_urls(e).len() ==> exists|i: int|
                0 <= i < e.len() && (media_url(#[trigger] e[i].image) == Some(
                    #[trigger] embed_image_urls(e)[k],
                ) || media_url(e[i].thumbnail) == Some(embed_image_urls(e)[k])),
    decreases e.len(),
{
    if e.len() > 0 {
        let r = e.drop_last();
        lemma_embed_urls_are_the_pictures(r);
        let prev = embed_image_urls(r);
        let last = embed_urls(e.last());
        assert(embed_image_urls(e) == prev + last);
        assert forall|i: int|
            0 <= i < e.len() && media_url(#[trigger] e[i].image) is Some implies embed_image_urls(
            e,
        ).contains(media_url(e[i].image)->0) by {
            let u = media_url(e[i].image)->0;
            if i < e.len() - 1 {
                assert(r[i] == e[i]);
                assert(media_url(r[i].image) is Some);
                let k = choose|k: int| 0 <= k < prev.len() && prev[k] == u;
                assert((prev + last)[k] == u);
            } else {
                assert(last[0] == u);
                assert((prev + last)[prev.len() as int] == u);
            }
        }
        assert forall|i: int|
            0 <= i < e.len() && media_url(#[trigger] e[i].thumbnail) is Some implies embed_image_urls(
            e,
        ).contains(media_url(e[i].thumbnail)->0) by {
            let u = media_url(e[i].thumbnail)->0;
            if i < e.len() - 1 {
                assert(r[i] == e[i]);
                assert(media_url(r[i].thumbnail) is Some);
                let k = choose|k: int| 0 <= k < prev.len() && prev[k] == u;
                assert((prev + last)[k] == u);
            } else {
                assert(last[last.len() - 1] == u);
                assert((prev + last)[prev.len() + last.len() - 1] == u);
            }
        }
        assert forall|k: int| 0 <= k < embed_image_urls(e).len() implies exists|i: int|
            0 <= i < e.len() && (media_url(#[trigger] e[i].image) == Some(#[trigger] embed_image_urls(e)[k])
                || media_url(e[i].thumbnail) == Some(embed_image_urls(e)[k])) by {
            let all = prev + last;
            if k < prev.len() {
                assert(all[k] == prev[k]);
                let i = choose|i: int|
                    0 <= i < r.len() && (media_url(#[trigger] r[i].image) == Some(prev[k])
                        || media_url(r[i].thumbnail) == Some(prev[k]));
                assert(r[i] == e[i]);
            } else {
                let j = e.len() - 1;
                assert(e[j] == e.last());
                assert(all[k] == last[k - prev.len()]);
            }
        }
    }
}

} // verus!
