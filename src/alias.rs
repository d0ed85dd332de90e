//! Room alias identifiers: validation and canonical form.

use ruma_identifiers::{RoomAliasId, RoomId};
use std::convert::TryFrom;
use vstd::prelude::*;

verus! {

/// Whether `ruma_identifiers` accepts the text as a room alias id.
pub uninterp spec fn room_alias_accepted(s: Seq<char>) -> bool;

/// Whether `ruma_identifiers` accepts the text as a room id.
pub uninterp spec fn room_id_accepted(s: Seq<char>) -> bool;

/// Relies on `RoomAliasId::try_from` of ruma_identifiers: it checks the length,
/// the `#` sigil, the `:` delimiter and the server name, and the verdict depends
/// on the text alone.
#[verifier::external_body]
fn parse_room_alias_id(s: &str) -> (r: bool)
    ensures
        r == room_alias_accepted(s@),
{
    RoomAliasId::try_from(s).is_ok()
}

/// Relies on `RoomId::try_from` of ruma_identifiers: it checks the length, the
/// `!` sigil, the `:` delimiter and the server name, and the verdict depends on
/// the text alone.
#[verifier::external_body]
fn parse_room_id(s: &str) -> (r: bool)
    ensures
        r == room_id_accepted(s@),
{
    RoomId::try_from(s).is_ok()
}

/// The canonical text of an alias: `#localpart:domain`.
pub open spec fn canonical_alias(localpart: Seq<char>, domain: Seq<char>) -> Seq<char> {
    seq!['#'] + localpart + seq![':'] + domain
}

/// An alias is valid when its localpart is not empty and its canonical text is
/// a well-formed room alias id.
pub open spec fn valid_alias(localpart: Seq<char>, domain: Seq<char>) -> bool {
    localpart.len() > 0 && room_alias_accepted(canonical_alias(localpart, domain))
}

/// A room id is usable when it is a well-formed room id.
pub open spec fn valid_room_id(room_id: Seq<char>) -> bool {
    room_id_accepted(room_id)
}

/// A validated room alias: a localpart scoped to the domain of a homeserver.
pub struct AliasId {
    localpart: String,
    domain: String,
}

impl AliasId {
    pub closed spec fn localpart_view(&self) -> Seq<char> {
        self.localpart@
    }

    pub closed spec fn domain_view(&self) -> Seq<char> {
        self.domain@
    }

    /// The canonical text `#localpart:domain`, which identifies the alias.
    pub open spec fn key(&self) -> Seq<char> {
        canonical_alias(self.localpart_view(), self.domain_view())
    }

    pub open spec fn wf(&self) -> bool {
        valid_alias(self.localpart_view(), self.domain_view())
    }

    /// Validates `localpart` within `domain`; `None` when the alias is invalid.
    pub fn new(localpart: &str, domain: &str) -> (r: Option<AliasId>)
        ensures
            r.is_some() == valid_alias(localpart@, domain@),
            r matches Some(a) ==> a.localpart_view() == localpart@ && a.domain_view()
                == domain@ && a.wf(),
    {
        if localpart.is_empty() {
            return None;
        }
        let text = render_alias(localpart, domain);
        if parse_room_alias_id(text.as_str()) {
            Some(AliasId { localpart: String::from_str(localpart), domain: String::from_str(domain) })
        } else {
            None
        }
    }

    pub fn localpart(&self) -> (r: &str)
        ensures
            r@ == self.localpart_view(),
    {
        self.localpart.as_str()
    }

    pub fn domain(&self) -> (r: &str)
        ensures
            r@ == self.domain_view(),
    {
        self.domain.as_str()
    }

    /// The canonical text of this alias.
    pub fn to_canonical(&self) -> (r: String)
        ensures
            r@ == self.key(),
    {
        render_alias(self.localpart.as_str(), self.domain.as_str())
    }
}

/// Builds `#localpart:domain`.
pub fn render_alias(localpart: &str, domain: &str) -> (r: String)
    ensures
        r@ == canonical_alias(localpart@, domain@),
{
    let mut text = String::from_str("#");
    text.append(localpart);
    text.append(":");
    text.append(domain);
    proof {
        reveal_strlit("#");
        reveal_strlit(":");
        assert(text@ =~= canonical_alias(localpart@, domain@));
    }
    text
}

/// Whether `room_id` is a well-formed room id.
pub fn is_valid_room_id(room_id: &str) -> (r: bool)
    ensures
        r == valid_room_id(room_id@),
{
    parse_room_id(room_id)
}

} // verus!
