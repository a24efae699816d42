//! Multimodal message content.
//!
//! A message carries either plain text or an ordered list of content parts:
//! text interleaved with images. The parts are provider-neutral; each provider
//! maps them to its own wire format.
use crate::text;
use crate::seqs;
use crate::json;
use crate::json::{Json, JsonMap, JsonView};
use crate::text::{join_strs, same};
use vstd::prelude::*;

verus! {

/// Where an image comes from.
#[derive(Debug)]
pub enum ImageSource {
    /// A remote (or `data:`) URL the provider fetches itself.
    Url { url: String },
    /// Inline base64-encoded bytes with an explicit media type.
    Base64 { media_type: String, data: String },
}

#[verifier::ext_equal]
pub enum ImageSourceView {
    Url { url: Seq<char> },
    Base64 { media_type: Seq<char>, data: Seq<char> },
}

impl View for ImageSource {
    type V = ImageSourceView;

    open spec fn view(&self) -> ImageSourceView {
        match self {
            ImageSource::Url { url } => ImageSourceView::Url { url: url@ },
            ImageSource::Base64 { media_type, data } => ImageSourceView::Base64 {
                media_type: media_type@,
                data: data@,
            },
        }
    }
}

impl Clone for ImageSource {
    fn clone(&self) -> (r: ImageSource)
        ensures
            r@ == self@,
    {
        match self {
            ImageSource::Url { url } => ImageSource::Url { url: url.clone() },
            ImageSource::Base64 { media_type, data } => ImageSource::Base64 {
                media_type: media_type.clone(),
                data: data.clone(),
            },
        }
    }
}

/// The `data:` URL of inline bytes, or the URL itself.
pub open spec fn data_url(source: ImageSourceView) -> Seq<char> {
    match source {
        ImageSourceView::Url { url } => url,
        ImageSourceView::Base64 { media_type, data } => "data:"@ + media_type + ";base64,"@ + data,
    }
}

impl ImageSource {
    /// Render as a `data:` URL (or pass a plain URL through).
    pub fn to_data_url(&self) -> (r: String)
        ensures
            r@ == data_url(self@),
    {
        match self {
            ImageSource::Url { url } => url.clone(),
            ImageSource::Base64 { media_type, data } => {
                let mut out = "data:".to_owned();
                out.push_str(media_type.as_str());
                out.push_str(";base64,");
                out.push_str(data.as_str());
                out
            },
        }
    }
}

/// One piece of message content.
#[derive(Debug)]
pub enum ContentPart {
    Text { text: String },
    Image { source: ImageSource },
}

#[verifier::ext_equal]
pub enum PartView {
    Text { text: Seq<char> },
    Image { source: ImageSourceView },
}

impl View for ContentPart {
    type V = PartView;

    open spec fn view(&self) -> PartView {
        match self {
            ContentPart::Text { text } => PartView::Text { text: text@ },
            ContentPart::Image { source } => PartView::Image { source: source@ },
        }
    }
}

impl Clone for ContentPart {
    fn clone(&self) -> (r: ContentPart)
        ensures
            r@ == self@,
    {
        match self {
            ContentPart::Text { text } => ContentPart::Text { text: text.clone() },
            ContentPart::Image { source } => ContentPart::Image { source: source.clone() },
        }
    }
}

impl PartView {
    pub open spec fn as_text(self) -> Option<Seq<char>> {
        match self {
            PartView::Text { text } => Some(text),
            _ => None,
        }
    }
}

/// The object with the fields `type` and `text`.
pub open spec fn text_block(kind: Seq<char>, text: Seq<char>) -> JsonView {
    JsonView::Object(map!["type"@ => JsonView::Text(kind), "text"@ => JsonView::Text(text)])
}

/// The Chat Completions wire form of a part.
pub open spec fn openai_part(p: PartView) -> JsonView {
    match p {
        PartView::Text { text } => text_block("text"@, text),
        PartView::Image { source } => JsonView::Object(
            map![
                "type"@ => JsonView::Text("image_url"@),
                "image_url"@ => JsonView::Object(
                    map!["url"@ => JsonView::Text(data_url(source))],
                ),
            ],
        ),
    }
}

/// The Anthropic content-block form of a part.
pub open spec fn anthropic_part(p: PartView) -> JsonView {
    match p {
        PartView::Text { text } => text_block("text"@, text),
        PartView::Image { source } => JsonView::Object(
            map![
                "type"@ => JsonView::Text("image"@),
                "source"@ => match source {
                    ImageSourceView::Url { url } => JsonView::Object(
                        map!["type"@ => JsonView::Text("url"@), "url"@ => JsonView::Text(url)],
                    ),
                    ImageSourceView::Base64 { media_type, data } => JsonView::Object(
                        map![
                            "type"@ => JsonView::Text("base64"@),
                            "media_type"@ => JsonView::Text(media_type),
                            "data"@ => JsonView::Text(data),
                        ],
                    ),
                },
            ],
        ),
    }
}

/// The Responses input-content form of a part.
pub open spec fn responses_part(p: PartView) -> JsonView {
    match p {
        PartView::Text { text } => text_block("input_text"@, text),
        PartView::Image { source } => JsonView::Object(
            map![
                "type"@ => JsonView::Text("input_image"@),
                "image_url"@ => JsonView::Text(data_url(source)),
            ],
        ),
    }
}

/// An object with the fields `type` and `text`.
pub fn text_block_json(kind: &str, text: &str) -> (r: Json)
    ensures
        r@ == text_block(kind@, text@),
{
    let m = JsonMap::new().with("type", Json::text(kind)).with("text", Json::text(text));
    Json::Object(m)
}

impl ContentPart {
    pub fn text(text: &str) -> (r: ContentPart)
        ensures
            r@ == (PartView::Text { text: text@ }),
    {
        ContentPart::Text { text: text.to_owned() }
    }

    /// An image the provider fetches from `url`.
    pub fn image_url(url: &str) -> (r: ContentPart)
        ensures
            r@ == (PartView::Image { source: ImageSourceView::Url { url: url@ } }),
    {
        ContentPart::Image { source: ImageSource::Url { url: url.to_owned() } }
    }

    /// An inline base64 image.
    pub fn image_base64(media_type: &str, data: &str) -> (r: ContentPart)
        ensures
            r@ == (PartView::Image {
                source: ImageSourceView::Base64 { media_type: media_type@, data: data@ },
            }),
    {
        ContentPart::Image {
            source: ImageSource::Base64 { media_type: media_type.to_owned(), data: data.to_owned() },
        }
    }

    /// The text of this part, if it is a text part.
    pub fn as_text(&self) -> (r: Option<&str>)
        ensures
            json::opt_str(r) == self@.as_text(),
    {
        match self {
            ContentPart::Text { text } => Some(text.as_str()),
            _ => None,
        }
    }

    /// Chat Completions wire form.
    pub fn to_openai_json(&self) -> (r: Json)
        ensures
            r@ == openai_part(self@),
    {
        match self {
            ContentPart::Text { text } => text_block_json("text", text.as_str()),
            ContentPart::Image { source } => {
                let url = JsonMap::new().with("url", Json::Text(source.to_data_url()));
                Json::Object(
                    JsonMap::new().with("type", Json::text("image_url")).with(
                        "image_url",
                        Json::Object(url),
                    ),
                )
            },
        }
    }

    /// Anthropic Messages content-block form.
    pub fn to_anthropic_json(&self) -> (r: Json)
        ensures
            r@ == anthropic_part(self@),
    {
        match self {
            ContentPart::Text { text } => text_block_json("text", text.as_str()),
            ContentPart::Image { source } => {
                let inner = match source {
                    ImageSource::Url { url } => JsonMap::new().with(
                        "type",
                        Json::text("url"),
                    ).with("url", Json::text(url.as_str())),
                    ImageSource::Base64 { media_type, data } => JsonMap::new().with(
                        "type",
                        Json::text("base64"),
                    ).with("media_type", Json::text(media_type.as_str())).with(
                        "data",
                        Json::text(data.as_str()),
                    ),
                };
                Json::Object(
                    JsonMap::new().with("type", Json::text("image")).with(
                        "source",
                        Json::Object(inner),
                    ),
                )
            },
        }
    }

    /// Responses API input-content form.
    pub fn to_responses_json(&self) -> (r: Json)
        ensures
            r@ == responses_part(self@),
    {
        match self {
            ContentPart::Text { text } => text_block_json("input_text", text.as_str()),
            ContentPart::Image { source } => Json::Object(
                JsonMap::new().with("type", Json::text("input_image")).with(
                    "image_url",
                    Json::Text(source.to_data_url()),
                ),
            ),
        }
    }
}

/// The form in which a part is stored.
pub open spec fn part_json(p: PartView) -> JsonView {
    match p {
        PartView::Text { text } => text_block("text"@, text),
        PartView::Image { source } => JsonView::Object(
            map!["type"@ => JsonView::Text("image"@), "source"@ => source_json(source)],
        ),
    }
}

/// The form in which an image source is stored.
pub open spec fn source_json(source: ImageSourceView) -> JsonView {
    match source {
        ImageSourceView::Url { url } => JsonView::Object(
            map!["kind"@ => JsonView::Text("url"@), "url"@ => JsonView::Text(url)],
        ),
        ImageSourceView::Base64 { media_type, data } => JsonView::Object(
            map![
                "kind"@ => JsonView::Text("base64"@),
                "media_type"@ => JsonView::Text(media_type),
                "data"@ => JsonView::Text(data),
            ],
        ),
    }
}

/// The image source that a stored object is.
pub open spec fn source_of(j: JsonView) -> Option<ImageSourceView> {
    match j.text_at("kind"@) {
        Some(kind) => if kind == "url"@ {
            match j.text_at("url"@) {
                Some(url) => Some(ImageSourceView::Url { url }),
                None => None,
            }
        } else if kind == "base64"@ {
            match (j.text_at("media_type"@), j.text_at("data"@)) {
                (Some(media_type), Some(data)) => Some(
                    ImageSourceView::Base64 { media_type, data },
                ),
                _ => None,
            }
        } else {
            None
        },
        None => None,
    }
}

/// The part that a stored object is. Fields that a part does not have are passed over.
pub open spec fn part_of(j: JsonView) -> Option<PartView> {
    match j.text_at("type"@) {
        Some(kind) => if kind == "text"@ {
            match j.text_at("text"@) {
                Some(text) => Some(PartView::Text { text }),
                None => None,
            }
        } else if kind == "image"@ {
            match j.get("source"@) {
                Some(s) => match source_of(s) {
                    Some(source) => Some(PartView::Image { source }),
                    None => None,
                },
                None => None,
            }
        } else {
            None
        },
        None => None,
    }
}

/// The parts that stored objects are, if each is one.
pub open spec fn parts_of(items: Seq<JsonView>) -> Option<Seq<PartView>> {
    seqs::map_all(items, |j: JsonView| part_of(j))
}

/// A stored part reads back as what it was.
pub proof fn law_part_reads_back(p: PartView)
    ensures
        part_of(part_json(p)) == Some(p),
{
    reveal_strlit("type");
    reveal_strlit("text");
    reveal_strlit("image");
    reveal_strlit("source");
    reveal_strlit("kind");
    reveal_strlit("url");
    reveal_strlit("base64");
    reveal_strlit("media_type");
    reveal_strlit("data");
    assert("type"@[1] == 'y' && "text"@[1] == 'e' && "kind"@[0] == 'k' && "data"@[0] == 'd');
    assert("image"@.len() == 5 && "text"@.len() == 4 && "url"@.len() == 3 && "base64"@.len() == 6);
    assert("source"@.len() == 6 && "type"@.len() == 4 && "media_type"@.len() == 10);
}

/// The views of optional parts.
pub open spec fn opt_part(o: Option<ContentPart>) -> Option<PartView> {
    match o {
        Some(p) => Some(p@),
        None => None,
    }
}

impl ImageSource {
    /// The form in which a source is stored.
    pub fn to_json(&self) -> (r: Json)
        ensures
            r@ == source_json(self@),
    {
        match self {
            ImageSource::Url { url } => Json::Object(
                JsonMap::new().with("kind", Json::text("url")).with("url", Json::text(url.as_str())),
            ),
            ImageSource::Base64 { media_type, data } => Json::Object(
                JsonMap::new().with("kind", Json::text("base64")).with(
                    "media_type",
                    Json::text(media_type.as_str()),
                ).with("data", Json::text(data.as_str())),
            ),
        }
    }

    /// Reads a stored source.
    pub fn from_json(j: &Json) -> (r: Option<ImageSource>)
        ensures
            match r {
                Some(s) => source_of(j@) == Some(s@),
                None => source_of(j@) is None,
            },
    {
        let kind = match j.text_at("kind") {
            Some(k) => k,
            None => {
                return None;
            },
        };
        if same(kind, "url") {
            match j.text_at("url") {
                Some(url) => Some(ImageSource::Url { url: url.to_owned() }),
                None => None,
            }
        } else if same(kind, "base64") {
            match (j.text_at("media_type"), j.text_at("data")) {
                (Some(media_type), Some(data)) => Some(
                    ImageSource::Base64 {
                        media_type: media_type.to_owned(),
                        data: data.to_owned(),
                    },
                ),
                _ => None,
            }
        } else {
            None
        }
    }
}

impl ContentPart {
    /// The form in which a part is stored.
    pub fn to_json(&self) -> (r: Json)
        ensures
            r@ == part_json(self@),
    {
        match self {
            ContentPart::Text { text } => text_block_json("text", text.as_str()),
            ContentPart::Image { source } => Json::Object(
                JsonMap::new().with("type", Json::text("image")).with("source", source.to_json()),
            ),
        }
    }

    /// Reads a stored part.
    pub fn from_json(j: &Json) -> (r: Option<ContentPart>)
        ensures
            opt_part(r) == part_of(j@),
    {
        let kind = match j.text_at("type") {
            Some(k) => k,
            None => {
                return None;
            },
        };
        if same(kind, "text") {
            match j.text_at("text") {
                Some(text) => Some(ContentPart::Text { text: text.to_owned() }),
                None => None,
            }
        } else if same(kind, "image") {
            match j.get("source") {
                Some(s) => match ImageSource::from_json(s) {
                    Some(source) => Some(ContentPart::Image { source }),
                    None => None,
                },
                None => None,
            }
        } else {
            None
        }
    }
}

/// Reads stored parts; `None` if one of them is none.
pub fn read_parts(items: &Vec<Json>) -> (r: Option<Vec<ContentPart>>)
    ensures
        match r {
            Some(v) => parts_of(json::items_view(items@)) == Some(text::views(v@)),
            None => parts_of(json::items_view(items@)) is None,
        },
{
    let ghost all = json::items_view(items@);
    let ghost f = |j: JsonView| part_of(j);
    let mut out: Vec<ContentPart> = Vec::new();
    let mut i: usize = 0;
    proof {
        json::lemma_items_view(items@);
    }
    while i < items.len()
        invariant
            i <= items@.len(),
            all == json::items_view(items@),
            all.len() == items@.len(),
            forall|k: int| 0 <= k < items@.len() ==> #[trigger] all[k] == items@[k]@,
            f == (|j: JsonView| part_of(j)),
            out@.len() == i,
            forall|k: int| 0 <= k < i ==> f(#[trigger] all[k]) == Some(out@[k]@),
        decreases items@.len() - i,
    {
        assert(all[i as int] == items@[i as int]@);
        match ContentPart::from_json(&items[i]) {
            Some(p) => {
                out.push(p);
            },
            None => {
                assert(f(all[i as int]) is None);
                return None;
            },
        }
        i += 1;
    }
    assert(text::views(out@) =~= Seq::new(all.len(), |k: int| f(all[k])->0));
    Some(out)
}

/// The texts of the text parts, in order.
pub open spec fn texts(parts: Seq<PartView>) -> Seq<Seq<char>>
    decreases parts.len(),
{
    if parts.len() == 0 {
        Seq::empty()
    } else {
        match parts.last().as_text() {
            Some(t) => texts(parts.drop_last()).push(t),
            None => texts(parts.drop_last()),
        }
    }
}

/// The text parts, one per line.
pub open spec fn text_of_parts(parts: Seq<PartView>) -> Seq<char> {
    text::join(texts(parts), "\n"@)
}

/// Concatenate the text parts, ignoring images.
pub fn parts_to_text(parts: &Vec<ContentPart>) -> (r: String)
    ensures
        r@ == text_of_parts(text::views(parts@)),
{
    let mut out: Vec<String> = Vec::new();
    let mut i: usize = 0;
    while i < parts.len()
        invariant
            i <= parts@.len(),
            text::views(out@) == texts(text::views(parts@).take(i as int)),
        decreases parts@.len() - i,
    {
        proof {
            assert(text::views(parts@).take(i + 1).drop_last() =~= text::views(parts@).take(i as int));
        }
        let ghost before = out@;
        match parts[i].as_text() {
            Some(t) => {
                out.push(t.to_owned());
                assert(text::views(out@) =~= text::views(before).push(t@));
            },
            None => {},
        }
        i += 1;
    }
    assert(text::views(parts@).take(i as int) =~= text::views(parts@));
    join_strs(&out, "\n")
}

} // verus!
