//! ActivityPub objects that this server renders.
use vstd::prelude::*;

verus! {

/// The `freeText` term of the JSON-LD context.
#[derive(Debug)]
pub struct FreeText {
    pub id: &'static str,
    pub ap_type: &'static str,
}

/// The `searchableBy` term of the JSON-LD context.
#[derive(Debug)]
pub struct ApSearchableBy {
    pub id: &'static str,
    pub ap_type: &'static str,
}

/// An image: its media type and URL.
#[derive(Debug)]
pub struct ApImage {
    pub ap_type: &'static str,
    pub media_type: String,
    pub url: String,
}

/// The licence of an emoji as free text.
#[derive(Debug)]
pub struct ApMisskeyLicense {
    pub free_text: Option<String>,
}

/// The author of an emoji, given as both author and creator.
#[derive(Debug)]
pub struct ApEmojiAuthor {
    pub author: String,
    pub creator: String,
}

/// Whether others may copy an emoji.
#[derive(Clone, Copy, Debug, PartialEq, Eq, Structural)]
pub enum EmojiCopyPermissions {
    Allow,
    Deny,
    Conditional,
}

/// A custom emoji as an ActivityPub `Emoji`.
#[derive(Debug)]
pub struct ApEmoji {
    pub id: String,
    pub ap_type: &'static str,
    pub name: String,
    pub updated: String,
    pub icon: ApImage,
    pub misskey_license: ApMisskeyLicense,
    pub keywords: String,
    pub is_sensitive: bool,
    pub copy_permission: Option<EmojiCopyPermissions>,
    pub category: Option<String>,
    pub license: Option<String>,
    pub usage_info: Option<String>,
    pub description: Option<String>,
    pub is_based_on: Option<String>,
    pub author: Option<ApEmojiAuthor>,
}

/// A reaction as an ActivityPub `Like`.
#[derive(Debug)]
pub struct ApLike {
    pub ap_type: &'static str,
    pub id: String,
    pub actor: String,
    pub object: String,
    pub content: String,
    pub misskey_reaction: String,
    pub tag: Vec<ApEmoji>,
}

} // verus!

verus! {

/// The terms this server adds to the JSON-LD context of its activities.
#[derive(Debug)]
pub struct ApContext {
    pub key: &'static str,
    pub manually_approves_followers: &'static str,
    pub sensitive: &'static str,
    pub hashtag: &'static str,
    pub quote_url: &'static str,
    pub toot: &'static str,
    pub emoji: &'static str,
    pub featured: &'static str,
    pub discoverable: &'static str,
    pub indexable: &'static str,
    pub fedibird: &'static str,
    pub searchable_by: ApSearchableBy,
    pub schema: &'static str,
    pub property_value: &'static str,
    pub value: &'static str,
    pub misskey: &'static str,
    pub misskey_content: &'static str,
    pub misskey_quote: &'static str,
    pub misskey_reaction: &'static str,
    pub misskey_votes: &'static str,
    pub misskey_summary: &'static str,
    pub misskey_followed_message: &'static str,
    pub misskey_require_signin_to_view_contents: &'static str,
    pub misskey_make_notes_followers_only_before: &'static str,
    pub misskey_make_notes_hidden_before: &'static str,
    pub misskey_license: &'static str,
    pub free_text: FreeText,
    pub misskey_talk: &'static str,
    pub is_cat: &'static str,
    pub yojoart: &'static str,
    pub banner: &'static str,
    pub game: &'static str,
    pub yojoart_clips: &'static str,
    pub vcard: &'static str,
}

impl ApContext {
    /// The context terms, each with its IRI or compact IRI.
    pub fn standard() -> (r: ApContext)
        ensures
            r.key == "sec:Key",
            r.manually_approves_followers == "as:manuallyApprovesFollowers",
            r.sensitive == "as:sensitive",
            r.hashtag == "as:Hashtag",
            r.quote_url == "as:quoteUrl",
            r.toot == "http://joinmastodon.org/ns#",
            r.emoji == "toot:Emoji",
            r.featured == "toot:featured",
            r.discoverable == "toot:discoverable",
            r.indexable == "toot:indexable",
            r.fedibird == "http://fedibird.com/ns#",
            r.searchable_by.id == "fedibird:searchableBy",
            r.searchable_by.ap_type == "@id",
            r.schema == "http://schema.org#",
            r.property_value == "schema:PropertyValue",
            r.value == "schema:value",
            r.misskey == "https://misskey-hub.net/ns#",
            r.misskey_content == "misskey:_misskey_content",
            r.misskey_quote == "misskey:_misskey_quote",
            r.misskey_reaction == "misskey:_misskey_reaction",
            r.misskey_votes == "misskey:_misskey_votes",
            r.misskey_summary == "misskey:_misskey_summary",
            r.misskey_followed_message == "misskey:_misskey_followedMessage",
            r.misskey_require_signin_to_view_contents == "misskey:_misskey_requireSigninToViewContents",
            r.misskey_make_notes_followers_only_before == "misskey:_misskey_makeNotesFollowersOnlyBefore",
            r.misskey_make_notes_hidden_before == "misskey:_misskey_makeNotesHiddenBefore",
            r.misskey_license == "misskey:_misskey_license",
            r.free_text.id == "misskey:freeText",
            r.free_text.ap_type == "schema:text",
            r.misskey_talk == "misskey:_misskey_talk",
            r.is_cat == "misskey:isCat",
            r.yojoart == "https://yojoart.kzkr.xyz/ns#",
            r.banner == "yojoart:banner",
            r.game == "yojoart:Game",
            r.yojoart_clips == "yojoart:_yojoart_clips",
            r.vcard == "http://www.w3.org/2006/vcard/ns#",
    {
        ApContext {
            key: "sec:Key",
            manually_approves_followers: "as:manuallyApprovesFollowers",
            sensitive: "as:sensitive",
            hashtag: "as:Hashtag",
            quote_url: "as:quoteUrl",
            toot: "http://joinmastodon.org/ns#",
            emoji: "toot:Emoji",
            featured: "toot:featured",
            discoverable: "toot:discoverable",
            indexable: "toot:indexable",
            fedibird: "http://fedibird.com/ns#",
            searchable_by: ApSearchableBy { id: "fedibird:searchableBy", ap_type: "@id" },
            schema: "http://schema.org#",
            property_value: "schema:PropertyValue",
            value: "schema:value",
            misskey: "https://misskey-hub.net/ns#",
            misskey_content: "misskey:_misskey_content",
            misskey_quote: "misskey:_misskey_quote",
            misskey_reaction: "misskey:_misskey_reaction",
            misskey_votes: "misskey:_misskey_votes",
            misskey_summary: "misskey:_misskey_summary",
            misskey_followed_message: "misskey:_misskey_followedMessage",
            misskey_require_signin_to_view_contents: "misskey:_misskey_requireSigninToViewContents",
            misskey_make_notes_followers_only_before: "misskey:_misskey_makeNotesFollowersOnlyBefore",
            misskey_make_notes_hidden_before: "misskey:_misskey_makeNotesHiddenBefore",
            misskey_license: "misskey:_misskey_license",
            free_text: FreeText { id: "misskey:freeText", ap_type: "schema:text" },
            misskey_talk: "misskey:_misskey_talk",
            is_cat: "misskey:isCat",
            yojoart: "https://yojoart.kzkr.xyz/ns#",
            banner: "yojoart:banner",
            game: "yojoart:Game",
            yojoart_clips: "yojoart:_yojoart_clips",
            vcard: "http://www.w3.org/2006/vcard/ns#",
        }
    }
}

} // verus!
