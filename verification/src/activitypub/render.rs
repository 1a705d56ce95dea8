//! Rendering of emojis and reactions as ActivityPub objects.
use vstd::prelude::*;
use crate::text::{chars_of, string_of, push_chars, opt_chars};
use crate::id_service::misskey_ulid::chrono_millis_representable;
use crate::id_service::{now_millis, representable};
use crate::activitypub::types::{ApEmoji, ApEmojiAuthor, ApImage, ApLike, ApMisskeyLicense, EmojiCopyPermissions};

verus! {

/// The fields of a custom emoji that rendering reads.
#[derive(Clone, Debug)]
pub struct EmojiRecord {
    pub name: String,
    /// When the emoji was last updated, in milliseconds since the epoch.
    pub updated_at: Option<i64>,
    pub image_type: Option<String>,
    pub public_url: String,
    pub license: Option<String>,
    pub aliases: Vec<String>,
    pub is_sensitive: bool,
    pub copy_permission: Option<EmojiCopyPermissions>,
    pub category: Option<String>,
    pub usage_info: Option<String>,
    pub description: Option<String>,
    pub is_based_on: Option<String>,
    pub author: Option<String>,
}

/// The fields of a note that a `Like` of it reads.
#[derive(Clone, Debug)]
pub struct LikedNote {
    pub id: String,
    pub uri: Option<String>,
}

/// A reaction to a note.
#[derive(Clone, Debug)]
pub struct NoteReaction {
    pub id: String,
    pub note_id: String,
    pub user_id: String,
    pub reaction: String,
}

/// The RFC 3339 text of an instant given in milliseconds, as chrono's
/// `DateTime<Utc>::to_rfc3339` writes it.
pub uninterp spec fn rfc3339_text(t: int) -> Seq<char>;

/// `chrono::DateTime::<Utc>::from_timestamp_millis` and `to_rfc3339`.
///
/// Trusted: the text is named `rfc3339_text` of the instant; the instant is one
/// that chrono can hold.
#[verifier::external_body]
fn rfc3339_of(t: i64) -> (r: String)
    requires
        chrono_millis_representable(t as int),
    ensures
        r@ == rfc3339_text(t as int),
{
    chrono::DateTime::<chrono::Utc>::from_timestamp_millis(t).unwrap().to_rfc3339()
}

pub open spec fn emojis_infix() -> Seq<char> {
    seq!['/', 'e', 'm', 'o', 'j', 'i', 's', '/']
}

fn emojis_infix_chars() -> (r: Vec<char>)
    ensures
        r@ == emojis_infix(),
{
    let r = vec!['/', 'e', 'm', 'o', 'j', 'i', 's', '/'];
    assert(r@ =~= emojis_infix());
    r
}
pub open spec fn likes_infix() -> Seq<char> {
    seq!['l', 'i', 'k', 'e', 's', '/']
}

fn likes_infix_chars() -> (r: Vec<char>)
    ensures
        r@ == likes_infix(),
{
    let r = vec!['l', 'i', 'k', 'e', 's', '/'];
    assert(r@ =~= likes_infix());
    r
}
pub open spec fn users_infix() -> Seq<char> {
    seq!['u', 's', 'e', 'r', 's', '/']
}

fn users_infix_chars() -> (r: Vec<char>)
    ensures
        r@ == users_infix(),
{
    let r = vec!['u', 's', 'e', 'r', 's', '/'];
    assert(r@ =~= users_infix());
    r
}
pub open spec fn notes_infix() -> Seq<char> {
    seq!['n', 'o', 't', 'e', 's', '/']
}

fn notes_infix_chars() -> (r: Vec<char>)
    ensures
        r@ == notes_infix(),
{
    let r = vec!['n', 'o', 't', 'e', 's', '/'];
    assert(r@ =~= notes_infix());
    r
}
pub open spec fn png_type() -> Seq<char> {
    seq!['i', 'm', 'a', 'g', 'e', '/', 'p', 'n', 'g']
}

fn png_type_chars() -> (r: Vec<char>)
    ensures
        r@ == png_type(),
{
    let r = vec!['i', 'm', 'a', 'g', 'e', '/', 'p', 'n', 'g'];
    assert(r@ =~= png_type());
    r
}

/// The concatenation of a list of texts.
pub open spec fn joined(s: Seq<Seq<char>>) -> Seq<char>
    decreases s.len(),
{
    if s.len() == 0 {
        Seq::empty()
    } else {
        joined(s.drop_last()) + s.last()
    }
}

fn clone_opt(o: &Option<String>) -> (r: Option<String>)
    ensures
        r == *o,
{
    match o {
        Some(s) => Some(s.clone()),
        None => None,
    }
}

/// A lower-case hexadecimal digit.
pub open spec fn lower_hex(c: char) -> bool {
    ('0' <= c && c <= '9') || ('a' <= c && c <= 'f')
}

/// The text of a random (version 4, RFC 4122 variant) UUID in hyphenated
/// lower-case form: 36 characters, `-` at positions 8, 13, 18 and 23,
/// hexadecimal digits elsewhere, `4` at position 14 and one of `8 9 a b` at 19.
pub open spec fn uuid_v4_text(u: Seq<char>) -> bool {
    &&& u.len() == 36
    &&& forall|i: int| 0 <= i < 36 ==> (if i == 8 || i == 13 || i == 18 || i == 23 {
        #[trigger] u[i] == '-'
    } else {
        lower_hex(u[i])
    })
    &&& u[14] == '4'
    &&& (u[19] == '8' || u[19] == '9' || u[19] == 'a' || u[19] == 'b')
}

/// `uuid::Uuid::new_v4().to_string()`.
///
/// Trusted: the UUID is random and not stated; `new_v4` sets the version and
/// variant bits and `Display` writes the hyphenated lower-case form (see
/// `uuid_v4_text`).
#[verifier::external_body]
fn random_uuid_text() -> (r: String)
    ensures
        uuid_v4_text(r@),
{
    uuid::Uuid::new_v4().to_string()
}

/// Renders activities for this server.
#[derive(Clone, Debug)]
pub struct ApRenderService {
    /// The server's URL.
    pub url: String,
}

impl ApRenderService {
    pub fn new(url: String) -> (r: Self)
        ensures
            r.url == url,
    {
        ApRenderService { url }
    }

    /// The id of the body that carries an activity's JSON-LD context: the
    /// server's URL, `/` and a fresh random UUID.
    pub fn context_id(&self) -> (r: String)
        ensures
            exists|u: Seq<char>| uuid_v4_text(u) && r@ == self.url@ + seq!['/'] + u,
    {
        let u = random_uuid_text();
        let mut r = self.url.clone();
        crate::text::push_char(&mut r, '/');
        let uc = chars_of(u.as_str());
        push_chars(&mut r, uc.as_slice());
        assert(r@ =~= self.url@ + seq!['/'] + u@);
        r
    }

    /// A custom emoji as an `Emoji`: its id is `{url}/emojis/{name}`, its
    /// keywords are its aliases run together, its icon has the emoji's type
    /// (PNG when unknown), and its update time is the emoji's (now when
    /// unknown, or beyond what chrono can hold).
    pub fn render_emoji(&self, emoji: EmojiRecord) -> (r: ApEmoji)
        ensures
            r.id@ == self.url@ + emojis_infix() + emoji.name@,
            r.ap_type@ == seq!['E', 'm', 'o', 'j', 'i'],
            r.name == emoji.name,
            emoji.updated_at matches Some(t) ==> (chrono_millis_representable(t as int) ==> r.updated@ == rfc3339_text(t as int)),
            exists|t: int| r.updated@ == rfc3339_text(t),
            r.icon.ap_type@ == seq!['I', 'm', 'a', 'g', 'e'],
            r.icon.media_type@ == (match emoji.image_type {
                Some(t) => t@,
                None => png_type(),
            }),
            r.icon.url == emoji.public_url,
            r.misskey_license.free_text == emoji.license,
            r.keywords@ == joined(crate::text::views(emoji.aliases@)),
            r.is_sensitive == emoji.is_sensitive,
            r.copy_permission == emoji.copy_permission,
            r.category == emoji.category,
            r.license == emoji.license,
            r.usage_info == emoji.usage_info,
            r.description == emoji.description,
            r.is_based_on == emoji.is_based_on,
            match emoji.author {
                Some(a) => r.author matches Some(x) && x.author == a && x.creator == a,
                None => r.author is None,
            },
    {
        let mut id = string_of(&chars_of(self.url.as_str()));
        push_chars(&mut id, &emojis_infix_chars());
        push_chars(&mut id, &chars_of(emoji.name.as_str()));
        let t = match emoji.updated_at {
            Some(t) => if representable(t) {
                t
            } else {
                now_millis()
            },
            None => now_millis(),
        };
        let updated = rfc3339_of(t);
        let media_type = match &emoji.image_type {
            Some(m) => m.clone(),
            None => string_of(&png_type_chars()),
        };
        let mut keywords = String::new();
        let mut i: usize = 0;
        while i < emoji.aliases.len()
            invariant
                i <= emoji.aliases@.len(),
                keywords@ == joined(crate::text::views(emoji.aliases@).take(i as int)),
            decreases emoji.aliases@.len() - i,
        {
            proof {
                assert(crate::text::views(emoji.aliases@).take(i + 1).drop_last() =~= crate::text::views(emoji.aliases@).take(i as int));
            }
            push_chars(&mut keywords, &chars_of(emoji.aliases[i].as_str()));
            i = i + 1;
        }
        assert(crate::text::views(emoji.aliases@).take(emoji.aliases@.len() as int) =~= crate::text::views(emoji.aliases@));
        let author = match &emoji.author {
            Some(a) => Some(ApEmojiAuthor { creator: a.clone(), author: a.clone() }),
            None => None,
        };
        proof {
            reveal_strlit("Emoji");
            reveal_strlit("Image");
        }
        ApEmoji {
            id,
            ap_type: "Emoji",
            name: emoji.name.clone(),
            updated,
            icon: ApImage { ap_type: "Image", media_type, url: emoji.public_url.clone() },
            misskey_license: ApMisskeyLicense { free_text: clone_opt(&emoji.license) },
            keywords,
            is_sensitive: emoji.is_sensitive,
            copy_permission: emoji.copy_permission,
            category: clone_opt(&emoji.category),
            license: clone_opt(&emoji.license),
            usage_info: clone_opt(&emoji.usage_info),
            description: clone_opt(&emoji.description),
            is_based_on: clone_opt(&emoji.is_based_on),
            author,
        }
    }

    /// A reaction as a `Like` of the note: `{url}likes/{reaction id}` by
    /// `{url}users/{user id}` of the note's URI (its local URL
    /// `{url}notes/{note id}` when it has none), tagged with the custom emoji
    /// where there is one. The reaction must be to that note.
    pub fn render_like(&self, note: &LikedNote, reaction: NoteReaction, emoji: Option<EmojiRecord>) -> (r: ApLike)
        requires
            note.id@ == reaction.note_id@,
        ensures
            r.ap_type@ == seq!['L', 'i', 'k', 'e'],
            r.id@ == self.url@ + likes_infix() + reaction.id@,
            r.actor@ == self.url@ + users_infix() + reaction.user_id@,
            r.object@ == (match note.uri {
                Some(u) => u@,
                None => self.url@ + notes_infix() + reaction.note_id@,
            }),
            r.content == reaction.reaction,
            r.misskey_reaction == reaction.reaction,
            r.tag@.len() == (if emoji is Some { 1int } else { 0 }),
            emoji matches Some(e) ==> r.tag@[0].name == e.name,
    {
        let mut tag: Vec<ApEmoji> = Vec::new();
        if let Some(custom_emoji) = emoji {
            tag.push(self.render_emoji(custom_emoji));
        }
        let u = chars_of(self.url.as_str());
        let mut id = string_of(&u);
        push_chars(&mut id, &likes_infix_chars());
        push_chars(&mut id, &chars_of(reaction.id.as_str()));
        let mut actor = string_of(&u);
        push_chars(&mut actor, &users_infix_chars());
        push_chars(&mut actor, &chars_of(reaction.user_id.as_str()));
        let object = match &note.uri {
            Some(x) => x.clone(),
            None => {
                let mut o = string_of(&u);
                push_chars(&mut o, &notes_infix_chars());
                push_chars(&mut o, &chars_of(reaction.note_id.as_str()));
                o
            },
        };
        proof {
            reveal_strlit("Like");
        }
        ApLike {
            ap_type: "Like",
            id,
            actor,
            object,
            content: reaction.reaction.clone(),
            misskey_reaction: reaction.reaction.clone(),
            tag,
        }
    }
}

} // verus!
