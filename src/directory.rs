//! The directory endpoints: resolve an alias, bind an alias to a room, and
//! unbind an alias.

use crate::alias::{canonical_alias, is_valid_room_id, valid_alias, valid_room_id, AliasId};
use crate::store::{AliasRecord, AliasStore, BindingView};
use vstd::prelude::*;

verus! {

/// Why a directory request failed.
#[derive(Clone, Copy, Debug, PartialEq, Eq, Structural)]
pub enum DirectoryError {
    /// The alias's localpart is empty or malformed.
    InvalidAlias,
    /// The request names no alias.
    MissingParam,
    /// The body of a bind request does not parse as `{room_id}`.
    BadJson,
    /// The room to bind does not resolve to an existing room.
    RoomNotFound,
    /// The alias is already bound.
    AliasTaken,
    /// The alias is not bound, or the caller may not remove it.
    NotFound,
}

impl DirectoryError {
    /// The HTTP status that reports this error.
    pub fn status_code(&self) -> (r: u16)
        ensures
            r == match self {
                DirectoryError::InvalidAlias => 400u16,
                DirectoryError::MissingParam => 400u16,
                DirectoryError::BadJson => 400u16,
                DirectoryError::RoomNotFound => 422u16,
                DirectoryError::AliasTaken => 409u16,
                DirectoryError::NotFound => 404u16,
            },
    {
        match self {
            DirectoryError::InvalidAlias => 400,
            DirectoryError::MissingParam => 400,
            DirectoryError::BadJson => 400,
            DirectoryError::RoomNotFound => 422,
            DirectoryError::AliasTaken => 409,
            DirectoryError::NotFound => 404,
        }
    }

    /// The error code that the response body carries.
    pub fn errcode(&self) -> (r: &'static str)
        ensures
            r@ == match self {
                DirectoryError::InvalidAlias => "M_INVALID_PARAM"@,
                DirectoryError::MissingParam => "M_MISSING_PARAM"@,
                DirectoryError::BadJson => "M_BAD_JSON"@,
                DirectoryError::RoomNotFound => "M_INVALID_PARAM"@,
                DirectoryError::AliasTaken => "IO_RUMA_ALIAS_TAKEN"@,
                DirectoryError::NotFound => "M_NOT_FOUND"@,
            },
    {
        match self {
            DirectoryError::InvalidAlias => "M_INVALID_PARAM",
            DirectoryError::MissingParam => "M_MISSING_PARAM",
            DirectoryError::BadJson => "M_BAD_JSON",
            DirectoryError::RoomNotFound => "M_INVALID_PARAM",
            DirectoryError::AliasTaken => "IO_RUMA_ALIAS_TAKEN",
            DirectoryError::NotFound => "M_NOT_FOUND",
        }
    }
}

impl DirectoryError {
    /// The human-readable text that the response body carries.
    pub fn message(&self) -> (r: &'static str)
        ensures
            r@ == match self {
                DirectoryError::InvalidAlias => "The room alias is not valid."@,
                DirectoryError::MissingParam => "Missing value for required parameter: room_alias."@,
                DirectoryError::BadJson => "No JSON found in request body or JSON body was invalid."@,
                DirectoryError::RoomNotFound => "The room to bind the alias to does not exist."@,
                DirectoryError::AliasTaken => "The room alias is already taken."@,
                DirectoryError::NotFound => "No room alias was found."@,
            },
    {
        match self {
            DirectoryError::InvalidAlias => "The room alias is not valid.",
            DirectoryError::MissingParam => "Missing value for required parameter: room_alias.",
            DirectoryError::BadJson => "No JSON found in request body or JSON body was invalid.",
            DirectoryError::RoomNotFound => "The room to bind the alias to does not exist.",
            DirectoryError::AliasTaken => "The room alias is already taken.",
            DirectoryError::NotFound => "No room alias was found.",
        }
    }
}

/// What a successful resolve returns: the room and the servers that know the alias.
pub struct RoomAliasResponse {
    pub room_id: String,
    pub servers: Vec<String>,
}

/// The resolve endpoint (GET /directory/room/:room_alias).
pub struct GetRoomAlias;

/// The unbind endpoint (DELETE /directory/room/:room_alias).
pub struct DeleteRoomAlias;

/// The bind endpoint (PUT /directory/room/:room_alias).
pub struct PutRoomAlias;

/// The bindings of a store, keyed by canonical alias text.
pub type Bindings = Map<Seq<char>, BindingView>;

pub open spec fn opt_view(o: Option<&str>) -> Option<Seq<char>> {
    match o {
        Some(s) => Some(s@),
        None => None,
    }
}

/// What resolving `token` within `domain` yields: the room and servers of its
/// binding, `MissingParam` without a token, `NotFound` when the alias is
/// invalid or unbound.
pub open spec fn resolve_outcome(m: Bindings, token: Option<Seq<char>>, domain: Seq<char>) -> Result<
    (Seq<char>, Seq<Seq<char>>),
    DirectoryError,
> {
    match token {
        None => Err(DirectoryError::MissingParam),
        Some(t) => {
            let k = canonical_alias(t, domain);
            if valid_alias(t, domain) && m.contains_key(k) {
                Ok((m[k].room, m[k].servers))
            } else {
                Err(DirectoryError::NotFound)
            }
        },
    }
}

/// The binding that a successful bind creates.
pub open spec fn new_binding(room: Seq<char>, owner: Seq<char>, domain: Seq<char>) -> BindingView {
    BindingView { room, owner, servers: seq![domain] }
}

/// The bindings after binding `token` within `domain` to `room` for `owner`,
/// and the result. The checks come in this order: the token, the alias, the
/// room id, the room's existence, and last whether the alias is free. A room
/// id that is not well formed names no room, so it too gives `RoomNotFound`.
pub open spec fn bind_outcome(
    m: Bindings,
    token: Option<Seq<char>>,
    domain: Seq<char>,
    room: Option<Seq<char>>,
    room_exists: bool,
    owner: Seq<char>,
) -> (Bindings, Result<(), DirectoryError>) {
    match token {
        None => (m, Err(DirectoryError::MissingParam)),
        Some(t) => {
            let k = canonical_alias(t, domain);
            if !valid_alias(t, domain) {
                (m, Err(DirectoryError::InvalidAlias))
            } else {
                match room {
                    None => (m, Err(DirectoryError::BadJson)),
                    Some(r) => {
                        if !valid_room_id(r) || !room_exists {
                            (m, Err(DirectoryError::RoomNotFound))
                        } else if m.contains_key(k) {
                            (m, Err(DirectoryError::AliasTaken))
                        } else {
                            (m.insert(k, new_binding(r, owner, domain)), Ok(()))
                        }
                    },
                }
            }
        },
    }
}

/// The bindings after `owner` unbinds `token` within `domain`, and the result.
/// A missing binding and one made by someone else both give `NotFound`.
pub open spec fn unbind_outcome(
    m: Bindings,
    token: Option<Seq<char>>,
    domain: Seq<char>,
    owner: Seq<char>,
) -> (Bindings, Result<(), DirectoryError>) {
    match token {
        None => (m, Err(DirectoryError::MissingParam)),
        Some(t) => {
            let k = canonical_alias(t, domain);
            if valid_alias(t, domain) && m.contains_key(k) && m[k].owner == owner {
                (m.remove(k), Ok(()))
            } else {
                (m, Err(DirectoryError::NotFound))
            }
        },
    }
}

pub open spec fn response_view(r: Result<RoomAliasResponse, DirectoryError>) -> Result<
    (Seq<char>, Seq<Seq<char>>),
    DirectoryError,
> {
    match r {
        Ok(resp) => Ok((resp.room_id@, resp.servers.deep_view())),
        Err(e) => Err(e),
    }
}

/// The alias named by the request's `room_alias` parameter within `domain`.
pub fn get_room_alias_id_from_params(room_alias: Option<&str>, domain: &str) -> (r: Result<
    AliasId,
    DirectoryError,
>)
    ensures
        room_alias is None ==> r == Err::<AliasId, DirectoryError>(DirectoryError::MissingParam),
        room_alias matches Some(t) ==> {
            &&& r is Ok == valid_alias(t@, domain@)
            &&& r is Err ==> r == Err::<AliasId, DirectoryError>(DirectoryError::InvalidAlias)
            &&& r matches Ok(a) ==> a.localpart_view() == t@ && a.domain_view() == domain@
                && a.wf()
        },
{
    match room_alias {
        None => Err(DirectoryError::MissingParam),
        Some(t) => match AliasId::new(t, domain) {
            Some(a) => Ok(a),
            None => Err(DirectoryError::InvalidAlias),
        },
    }
}

impl GetRoomAlias {
    /// Resolves `room_alias` within `domain`.
    pub fn handle(&self, store: &AliasStore, room_alias: Option<&str>, domain: &str) -> (r: Result<
        RoomAliasResponse,
        DirectoryError,
    >)
        requires
            store.wf(),
        ensures
            response_view(r) == resolve_outcome(store@, opt_view(room_alias), domain@),
    {
        let alias = match get_room_alias_id_from_params(room_alias, domain) {
            Ok(a) => a,
            Err(DirectoryError::MissingParam) => return Err(DirectoryError::MissingParam),
            Err(_) => return Err(DirectoryError::NotFound),
        };
        match store.lookup(&alias) {
            Some(rec) => {
                let servers = copy_servers(&rec.servers);
                Ok(RoomAliasResponse { room_id: rec.room_id.clone(), servers })
            },
            None => Err(DirectoryError::NotFound),
        }
    }
}

fn copy_servers(servers: &Vec<String>) -> (r: Vec<String>)
    ensures
        r.deep_view() == servers.deep_view(),
{
    let mut out: Vec<String> = Vec::new();
    let mut i: usize = 0;
    while i < servers.len()
        invariant
            i <= servers.len(),
            out.len() == i,
            forall|j: int| 0 <= j < i ==> #[trigger] out@[j]@ == servers@[j]@,
        decreases servers.len() - i,
    {
        out.push(servers[i].clone());
        i = i + 1;
    }
    assert(out.deep_view() =~= servers.deep_view());
    out
}

impl DeleteRoomAlias {
    /// The text of a `NotFound` from unbinding, which does not tell a missing
    /// alias from one bound by someone else.
    pub fn not_found_message(&self) -> (r: &'static str)
        ensures
            r@ == "Provided room alias did not exist or you do not have access to delete it."@,
    {
        "Provided room alias did not exist or you do not have access to delete it."
    }

    /// Removes the binding of `room_alias` within `domain` when `user_id` made it.
    pub fn handle(
        &self,
        store: &mut AliasStore,
        room_alias: Option<&str>,
        domain: &str,
        user_id: &str,
    ) -> (r: Result<(), DirectoryError>)
        requires
            old(store).wf(),
        ensures
            final(store).wf(),
            (final(store)@, r) == unbind_outcome(old(store)@, opt_view(room_alias), domain@, user_id@),
    {
        let alias = match get_room_alias_id_from_params(room_alias, domain) {
            Ok(a) => a,
            Err(DirectoryError::MissingParam) => return Err(DirectoryError::MissingParam),
            Err(_) => return Err(DirectoryError::NotFound),
        };
        let affected_rows = store.delete_if_owner(&alias, user_id);
        if affected_rows > 0 {
            Ok(())
        } else {
            Err(DirectoryError::NotFound)
        }
    }
}

impl PutRoomAlias {
    /// Binds `room_alias` within `domain` to `room_id` for `user_id`.
    /// `room_id` is what the request body holds, `None` when it does not parse;
    /// `room_exists` is whether the room is known to exist.
    pub fn handle(
        &self,
        store: &mut AliasStore,
        room_alias: Option<&str>,
        domain: &str,
        room_id: Option<&str>,
        room_exists: bool,
        user_id: &str,
    ) -> (r: Result<(), DirectoryError>)
        requires
            old(store).wf(),
        ensures
            final(store).wf(),
            (final(store)@, r) == bind_outcome(
                old(store)@,
                opt_view(room_alias),
                domain@,
                opt_view(room_id),
                room_exists,
                user_id@,
            ),
    {
        let alias = match get_room_alias_id_from_params(room_alias, domain) {
            Ok(a) => a,
            Err(e) => return Err(e),
        };
        let room = match room_id {
            Some(r) => r,
            None => return Err(DirectoryError::BadJson),
        };
        if !is_valid_room_id(room) || !room_exists {
            return Err(DirectoryError::RoomNotFound);
        }
        let mut servers: Vec<String> = Vec::new();
        servers.push(String::from_str(domain));
        let record = AliasRecord {
            alias,
            room_id: String::from_str(room),
            owner: String::from_str(user_id),
            servers,
        };
        proof {
            assert(record.servers.deep_view() =~= seq![domain@]);
        }
        if store.create_if_absent(record) {
            Ok(())
        } else {
            Err(DirectoryError::AliasTaken)
        }
    }
}

/// The bindings and results after binding `token` within `domain` once for
/// each `(room, owner)` of `attempts`, in that order, every room existing.
pub open spec fn bind_each(
    m: Bindings,
    token: Seq<char>,
    domain: Seq<char>,
    attempts: Seq<(Seq<char>, Seq<char>)>,
) -> (Bindings, Seq<Result<(), DirectoryError>>)
    decreases attempts.len(),
{
    if attempts.len() == 0 {
        (m, Seq::empty())
    } else {
        let (m1, rs) = bind_each(m, token, domain, attempts.drop_last());
        let last = attempts.last();
        let (m2, r) = bind_outcome(m1, Some(token), domain, Some(last.0), true, last.1);
        (m2, rs.push(r))
    }
}

/// Binding a free, valid alias to an existing room succeeds, and resolving the
/// alias afterwards gives that room, with the local domain among its servers.
pub proof fn lemma_bind_then_resolve(
    m: Bindings,
    token: Seq<char>,
    domain: Seq<char>,
    room: Seq<char>,
    owner: Seq<char>,
)
    requires
        valid_alias(token, domain),
        valid_room_id(room),
        !m.contains_key(canonical_alias(token, domain)),
    ensures
        ({
            let (m1, r) = bind_outcome(m, Some(token), domain, Some(room), true, owner);
            &&& r is Ok
            &&& resolve_outcome(m1, Some(token), domain) == Ok::<
                (Seq<char>, Seq<Seq<char>>),
                DirectoryError,
            >((room, seq![domain]))
            &&& seq![domain].contains(domain)
        }),
{
    assert(seq![domain][0] == domain);
}

/// Once an alias is bound, binding it again fails with `AliasTaken` and
/// changes nothing, whoever asks and whatever room they name.
pub proof fn lemma_bound_alias_is_taken(
    m: Bindings,
    token: Seq<char>,
    domain: Seq<char>,
    room: Seq<char>,
    owner: Seq<char>,
    other_room: Seq<char>,
    other_owner: Seq<char>,
)
    requires
        bind_outcome(m, Some(token), domain, Some(room), true, owner).1 is Ok,
        valid_room_id(other_room),
    ensures
        ({
            let m1 = bind_outcome(m, Some(token), domain, Some(room), true, owner).0;
            bind_outcome(m1, Some(token), domain, Some(other_room), true, other_owner) == (
            m1,
            Err::<(), DirectoryError>(DirectoryError::AliasTaken),
            )
        }),
{
}

/// Unbinding succeeds exactly when the alias is bound and the caller made the
/// binding, and then removes it; in every other case it gives `NotFound` and
/// leaves the bindings as they were.
pub proof fn lemma_unbind_is_owner_gated(
    m: Bindings,
    token: Seq<char>,
    domain: Seq<char>,
    caller: Seq<char>,
)
    requires
        valid_alias(token, domain),
    ensures
        ({
            let k = canonical_alias(token, domain);
            let (m1, r) = unbind_outcome(m, Some(token), domain, caller);
            &&& r is Ok <==> (m.contains_key(k) && m[k].owner == caller)
            &&& r is Ok ==> m1 == m.remove(k) && !m1.contains_key(k)
            &&& r is Err ==> m1 == m && r == Err::<(), DirectoryError>(DirectoryError::NotFound)
        }),
{
}

/// Of any number of binds of one free, valid alias to existing rooms, taken in
/// any order, the first succeeds and every later one fails with `AliasTaken`;
/// afterwards the alias holds exactly the first binding. Each call of
/// `PutRoomAlias::handle` takes the store as `bind_outcome` says, and calls
/// on one store run one after another, so a run of them is `bind_each`.
pub proof fn lemma_one_bind_wins(
    m: Bindings,
    token: Seq<char>,
    domain: Seq<char>,
    attempts: Seq<(Seq<char>, Seq<char>)>,
)
    requires
        valid_alias(token, domain),
        !m.contains_key(canonical_alias(token, domain)),
        attempts.len() > 0,
        forall|i: int| 0 <= i < attempts.len() ==> valid_room_id(#[trigger] attempts[i].0),
    ensures
        ({
            let (m1, rs) = bind_each(m, token, domain, attempts);
            &&& rs.len() == attempts.len()
            &&& rs[0] is Ok
            &&& forall|i: int| 1 <= i < rs.len() ==> #[trigger] rs[i] == Err::<(), DirectoryError>(
                DirectoryError::AliasTaken,
            )
            &&& m1 == m.insert(
                canonical_alias(token, domain),
                new_binding(attempts[0].0, attempts[0].1, domain),
            )
        }),
    decreases attempts.len(),
{
    let k = canonical_alias(token, domain);
    let n = attempts.len();
    if n == 1 {
        let (m0, rs0) = bind_each(m, token, domain, attempts.drop_last());
        assert(m0 == m && rs0 == Seq::<Result<(), DirectoryError>>::empty());
        assert(attempts.last() == attempts[0]);
    } else {
        let prefix = attempts.drop_last();
        assert forall|i: int| 0 <= i < prefix.len() implies valid_room_id(#[trigger] prefix[i].0) by {
            assert(prefix[i] == attempts[i]);
        }
        lemma_one_bind_wins(m, token, domain, prefix);
        let (m1, rs) = bind_each(m, token, domain, prefix);
        assert(m1.contains_key(k));
        assert(valid_room_id(attempts[n - 1].0));
        assert(prefix[0] == attempts[0]);
        let (m2, rs2) = bind_each(m, token, domain, attempts);
        assert forall|i: int| 1 <= i < rs2.len() implies #[trigger] rs2[i] == Err::<(), DirectoryError>(
            DirectoryError::AliasTaken,
        ) by {
            if i < n - 1 {
                assert(rs2[i] == rs[i]);
            }
        }
    }
}

/// A bind naming a room that does not exist fails and leaves the bindings as
/// they were; when the alias is valid and the body names a room, it fails with
/// `RoomNotFound`.
pub proof fn lemma_missing_room_is_refused(
    m: Bindings,
    token: Option<Seq<char>>,
    domain: Seq<char>,
    room: Option<Seq<char>>,
    owner: Seq<char>,
)
    ensures
        ({
            let (m1, r) = bind_outcome(m, token, domain, room, false, owner);
            &&& r is Err
            &&& m1 == m
            &&& (token is Some && valid_alias(token->0, domain) && room is Some) ==> r == Err::<
                (),
                DirectoryError,
            >(DirectoryError::RoomNotFound)
        }),
{
}

} // verus!
