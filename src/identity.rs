//! The identity store: identities and their external login links, with the
//! uniqueness of user id, name, email and provider account.
use crate::text::{bytes_less, bytes_lt, lemma_bytes_lt_total, lemma_bytes_lt_transitive, utf8};
use crate::clock::now_unix;
use vstd::prelude::*;

verus! {

/// Kind of a registered identity.
#[derive(Clone, Copy, Debug, PartialEq, Eq, Structural)]
pub enum IdentityKind {
    User,
    Studio,
}

/// The number a kind is stored as.
pub open spec fn kind_code(kind: IdentityKind) -> i16 {
    match kind {
        IdentityKind::User => 1,
        IdentityKind::Studio => 2,
    }
}

impl IdentityKind {
    /// The number this kind is stored as.
    pub fn to_code(&self) -> (r: i16)
        ensures
            r == kind_code(*self),
    {
        match self {
            IdentityKind::User => 1,
            IdentityKind::Studio => 2,
        }
    }

    /// The kind stored as `code`, if any.
    pub fn from_code(code: i16) -> (r: Option<IdentityKind>)
        ensures
            r is Some <==> (code == 1 || code == 2),
            r is Some ==> kind_code(r->0) == code,
    {
        match code {
            1 => Some(IdentityKind::User),
            2 => Some(IdentityKind::Studio),
            _ => None,
        }
    }
}

/// A registered principal; `creation` is in unix seconds.
#[derive(Debug)]
pub struct Identity {
    pub user_id: u128,
    pub kind: IdentityKind,
    pub name: String,
    pub email: Option<String>,
    pub is_email_confirmed: bool,
    pub creation: i64,
}

/// An account at an external provider.
#[derive(Debug)]
pub struct ExternalLoginInfo {
    pub provider: String,
    pub provider_id: String,
}

/// A provider account bound to an identity; `linked_at` is in unix seconds.
#[derive(Debug)]
pub struct ExternalLink {
    pub provider: String,
    pub provider_id: String,
    pub user_id: u128,
    pub linked_at: i64,
}

#[derive(Debug)]
pub enum DBError {
    RetryLimitReached,
    Inconsistency(String),
    Conflict,
}

#[derive(Debug)]
pub enum IdentityError {
    UserIdConflict,
    NameConflict,
    LinkEmailConflict,
    LinkProviderConflict,
    DBError(DBError),
}

#[derive(Debug)]
pub enum IdentityBuildError {
    DBError(DBError),
}

/// Identity query options
#[derive(Debug)]
pub enum FindIdentity<'a> {
    UserId(u128),
    Email(&'a str),
    Name(&'a str),
    ExternalLogin(&'a ExternalLoginInfo),
}

/// Order of a search, with the exclusive lower bound of a keyset page, if any.
#[derive(Debug)]
pub enum SearchIdentityOrder {
    UserId(Option<u128>),
    Email(Option<(String, u128)>),
    Name(Option<(String, u128)>),
}

/// A search: a conjunction of the given filters, an order and a page size.
#[derive(Debug)]
pub struct SearchIdentity<'a> {
    pub order: SearchIdentityOrder,
    pub count: Option<usize>,
    pub user_ids: Option<&'a [u128]>,
    pub emails: Option<&'a [String]>,
    pub names: Option<&'a [String]>,
}

/// The most identities one search returns.
pub const MAX_SEARCH_COUNT: usize = 100;

/// A sort key: the ordering text, if the order has one and the row holds it,
/// and the user id that breaks ties. A row without the text sorts last.
pub type SortKey = (Option<Seq<u8>>, u128);

/// Strict order of sort keys.
pub open spec fn key_lt(a: SortKey, b: SortKey) -> bool {
    match (a.0, b.0) {
        (Some(x), Some(y)) => bytes_lt(x, y) || (x == y && a.1 < b.1),
        (Some(_), None) => true,
        (None, Some(_)) => false,
        (None, None) => a.1 < b.1,
    }
}

pub open spec fn text_key(s: Option<String>) -> Option<Seq<u8>> {
    match s {
        Some(s) => Some(utf8(s@)),
        None => None,
    }
}

/// The key that `order` sorts the identity `i` by.
pub open spec fn row_key(i: Identity, order: SearchIdentityOrder) -> SortKey {
    match order {
        SearchIdentityOrder::UserId(_) => (None, i.user_id),
        SearchIdentityOrder::Email(_) => (text_key(i.email), i.user_id),
        SearchIdentityOrder::Name(_) => (Some(utf8(i.name@)), i.user_id),
    }
}

/// The exclusive lower bound of the page, if any.
pub open spec fn cursor_key(order: SearchIdentityOrder) -> Option<SortKey> {
    match order {
        SearchIdentityOrder::UserId(Some(id)) => Some((None, id)),
        SearchIdentityOrder::Email(Some(c)) => Some((Some(utf8(c.0@)), c.1)),
        SearchIdentityOrder::Name(Some(c)) => Some((Some(utf8(c.0@)), c.1)),
        _ => None,
    }
}

pub open spec fn text_listed(list: Seq<String>, s: Seq<char>) -> bool {
    exists|k: int| 0 <= k < list.len() && list[k]@ == s
}

/// Whether `i` passes the filters of `search` and lies beyond its cursor.
pub open spec fn qualifies(i: Identity, search: SearchIdentity) -> bool {
    &&& (search.user_ids is Some ==> search.user_ids->0@.contains(i.user_id))
    &&& (search.names is Some ==> text_listed(search.names->0@, i.name@))
    &&& (search.emails is Some ==> i.email is Some && text_listed(search.emails->0@, i.email->0@))
    &&& (cursor_key(search.order) is Some ==> key_lt(cursor_key(search.order)->0, row_key(i, search.order)))
}

/// The page size: the requested count, never above `MAX_SEARCH_COUNT`.
pub open spec fn page_limit(count: Option<usize>) -> int {
    match count {
        Some(c) if c < MAX_SEARCH_COUNT => c as int,
        _ => MAX_SEARCH_COUNT as int,
    }
}

/// `r` is the answer to `search` over `rows`: the first `page_limit` qualifying
/// identities in the order's strict key order.
pub open spec fn search_result(rows: Seq<Identity>, search: SearchIdentity, r: Seq<Identity>) -> bool {
    &&& r.len() <= page_limit(search.count)
    &&& forall|j: int| 0 <= j < r.len() ==> rows.contains(#[trigger] r[j]) && qualifies(r[j], search)
    &&& forall|a: int, b: int| 0 <= a < b < r.len() ==> key_lt(row_key(#[trigger] r[a], search.order), row_key(#[trigger] r[b], search.order))
    &&& forall|k: int| 0 <= k < rows.len() && qualifies(#[trigger] rows[k], search) && !r.contains(rows[k])
        ==> r.len() == page_limit(search.count)
            && (r.len() > 0 ==> key_lt(row_key(r.last(), search.order), row_key(rows[k], search.order)))
}

/// `key_lt` is a strict total order.
pub proof fn lemma_key_order(a: SortKey, b: SortKey, c: SortKey)
    ensures
        !key_lt(a, a),
        a == b || key_lt(a, b) || key_lt(b, a),
        !(key_lt(a, b) && key_lt(b, a)),
        key_lt(a, b) && key_lt(b, c) ==> key_lt(a, c),
{
    if a.0 is Some && b.0 is Some {
        lemma_bytes_lt_total(a.0->0, b.0->0);
    }
    if a.0 is Some {
        lemma_bytes_lt_total(a.0->0, a.0->0);
    }
    if a.0 is Some && b.0 is Some && c.0 is Some {
        if bytes_lt(a.0->0, b.0->0) && bytes_lt(b.0->0, c.0->0) {
            lemma_bytes_lt_transitive(a.0->0, b.0->0, c.0->0);
        }
    }
}

pub open spec fn slice_key(t: Option<&[u8]>) -> Option<Seq<u8>> {
    match t {
        Some(t) => Some(t@),
        None => None,
    }
}

/// Compare two sort keys.
fn key_less(ta: Option<&[u8]>, ia: u128, tb: Option<&[u8]>, ib: u128) -> (r: bool)
    ensures
        r == key_lt((slice_key(ta), ia), (slice_key(tb), ib)),
{
    match (ta, tb) {
        (Some(x), Some(y)) => {
            if bytes_less(x, y) {
                true
            } else if bytes_less(y, x) {
                false
            } else {
                proof {
                    lemma_bytes_lt_total(x@, y@);
                }
                ia < ib
            }
        },
        (Some(_), None) => true,
        (None, Some(_)) => false,
        (None, None) => ia < ib,
    }
}

/// The text that `order` sorts `i` by, if any.
fn row_text<'a>(i: &'a Identity, order: &SearchIdentityOrder) -> (r: Option<&'a [u8]>)
    ensures
        slice_key(r) == row_key(*i, *order).0,
{
    match order {
        SearchIdentityOrder::UserId(_) => None,
        SearchIdentityOrder::Email(_) => match &i.email {
            Some(e) => Some(e.as_str().as_bytes()),
            None => None,
        },
        SearchIdentityOrder::Name(_) => Some(i.name.as_str().as_bytes()),
    }
}

fn text_in(list: &[String], s: &String) -> (r: bool)
    ensures
        r == text_listed(list@, s@),
{
    let mut k: usize = 0;
    while k < list.len()
        invariant
            k <= list@.len(),
            forall|m: int| 0 <= m < k ==> (#[trigger] list@[m])@ != s@,
        decreases list@.len() - k,
    {
        if same_text(list[k].as_str(), s.as_str()) {
            return true;
        }
        k = k + 1;
    }
    false
}

fn id_in(list: &[u128], id: u128) -> (r: bool)
    ensures
        r == list@.contains(id),
{
    let mut k: usize = 0;
    while k < list.len()
        invariant
            k <= list@.len(),
            forall|m: int| 0 <= m < k ==> list@[m] != id,
        decreases list@.len() - k,
    {
        if list[k] == id {
            return true;
        }
        k = k + 1;
    }
    false
}

/// Whether `i` passes the filters and the cursor of `search`.
fn passes(i: &Identity, search: &SearchIdentity) -> (r: bool)
    ensures
        r == qualifies(*i, *search),
{
    if let Some(ids) = search.user_ids {
        if !id_in(ids, i.user_id) {
            return false;
        }
    }
    if let Some(names) = search.names {
        if !text_in(names, &i.name) {
            return false;
        }
    }
    if let Some(emails) = search.emails {
        match &i.email {
            Some(e) => {
                if !text_in(emails, e) {
                    return false;
                }
            },
            None => return false,
        }
    }
    let text = row_text(i, &search.order);
    match &search.order {
        SearchIdentityOrder::UserId(Some(id)) => key_less(None, *id, text, i.user_id),
        SearchIdentityOrder::Email(Some(c)) => key_less(Some(c.0.as_str().as_bytes()), c.1, text, i.user_id),
        SearchIdentityOrder::Name(Some(c)) => key_less(Some(c.0.as_str().as_bytes()), c.1, text, i.user_id),
        _ => true,
    }
}

pub open spec fn opt_view(s: Option<String>) -> Option<Seq<char>> {
    match s {
        Some(s) => Some(s@),
        None => None,
    }
}

pub open spec fn id_taken(rows: Seq<Identity>, user_id: u128) -> bool {
    exists|k: int| 0 <= k < rows.len() && rows[k].user_id == user_id
}

pub open spec fn name_taken(rows: Seq<Identity>, name: Seq<char>) -> bool {
    exists|k: int| 0 <= k < rows.len() && rows[k].name@ == name
}

pub open spec fn email_taken(rows: Seq<Identity>, email: Seq<char>) -> bool {
    exists|k: int| 0 <= k < rows.len() && opt_view(rows[k].email) == Some(email)
}

pub open spec fn link_taken(links: Seq<ExternalLink>, provider: Seq<char>, provider_id: Seq<char>) -> bool {
    exists|k: int| 0 <= k < links.len() && links[k].provider@ == provider && links[k].provider_id@ == provider_id
}

/// Two identities may not share a user id, a name, or an email.
pub open spec fn rows_distinct(a: Identity, b: Identity) -> bool {
    &&& a.user_id != b.user_id
    &&& a.name@ != b.name@
    &&& (a.email is Some && b.email is Some ==> a.email->0@ != b.email->0@)
}

pub open spec fn links_distinct(a: ExternalLink, b: ExternalLink) -> bool {
    a.provider@ != b.provider@ || a.provider_id@ != b.provider_id@
}

/// The constraints of a store: no two identities share a user id, a name or
/// an email, no two links share a provider account, and every link refers to
/// a stored identity.
pub open spec fn store_ok(rows: Seq<Identity>, links: Seq<ExternalLink>) -> bool {
    &&& forall|i: int, j: int|
        0 <= i < rows.len() && 0 <= j < rows.len() && i != j ==> rows_distinct(#[trigger] rows[i], #[trigger] rows[j])
    &&& forall|i: int, j: int|
        0 <= i < links.len() && 0 <= j < links.len() && i != j ==> links_distinct(#[trigger] links[i], #[trigger] links[j])
    &&& forall|i: int| 0 <= i < links.len() ==> id_taken(rows, #[trigger] links[i].user_id)
}

/// Whether `i` answers the query `find`.
pub open spec fn find_matches(i: Identity, links: Seq<ExternalLink>, find: FindIdentity) -> bool {
    match find {
        FindIdentity::UserId(id) => i.user_id == id,
        FindIdentity::Email(e) => opt_view(i.email) == Some(e@),
        FindIdentity::Name(n) => i.name@ == n@,
        FindIdentity::ExternalLogin(x) => exists|k: int|
            0 <= k < links.len() && links[k].provider@ == x.provider@ && links[k].provider_id@ == x.provider_id@
                && links[k].user_id == i.user_id,
    }
}

/// `found` is the answer to `find`: a stored identity that matches it, or
/// nothing when none does.
pub open spec fn find_answer(rows: Seq<Identity>, links: Seq<ExternalLink>, find: FindIdentity, found: Option<Identity>) -> bool {
    match found {
        Some(i) => exists|k: int| 0 <= k < rows.len() && rows[k] == i && find_matches(rows[k], links, find),
        None => forall|k: int| 0 <= k < rows.len() ==> !find_matches(#[trigger] rows[k], links, find),
    }
}

/// Whether `i` is the identity that `create_user` makes of these arguments.
pub open spec fn created_as(i: Identity, user_id: u128, name: Seq<char>, email: Option<Seq<char>>) -> bool {
    &&& i.user_id == user_id
    &&& i.kind == IdentityKind::User
    &&& i.name@ == name
    &&& opt_view(i.email) == email
    &&& !i.is_email_confirmed
}

pub open spec fn link_of(l: ExternalLink, user_id: u128, info: ExternalLoginInfo) -> bool {
    l.user_id == user_id && l.provider@ == info.provider@ && l.provider_id@ == info.provider_id@
}

pub open spec fn str_view(s: Option<&str>) -> Option<Seq<char>> {
    match s {
        Some(s) => Some(s@),
        None => None,
    }
}

/// Holds of the identities of users other than `user_id`.
pub open spec fn other_user_row(user_id: u128) -> spec_fn(Identity) -> bool {
    |x: Identity| x.user_id != user_id
}

/// Holds of the links of users other than `user_id`.
pub open spec fn other_user_link(user_id: u128) -> spec_fn(ExternalLink) -> bool {
    |x: ExternalLink| x.user_id != user_id
}

fn same_text(a: &str, b: &str) -> (r: bool)
    ensures
        r == (a@ == b@),
{
    a.to_owned() == b.to_owned()
}

impl Identity {
    /// A copy of this identity.
    pub fn duplicate(&self) -> (r: Identity)
        ensures
            r == *self,
    {
        let email = match &self.email {
            Some(e) => Some(e.clone()),
            None => None,
        };
        Identity {
            user_id: self.user_id,
            kind: self.kind,
            name: self.name.clone(),
            email,
            is_email_confirmed: self.is_email_confirmed,
            creation: self.creation,
        }
    }
}

/// The store of identities and external login links.
pub struct IdentityManager {
    identities: Vec<Identity>,
    links: Vec<ExternalLink>,
}

impl IdentityManager {
    /// The stored identities, in insertion order.
    pub closed spec fn rows(&self) -> Seq<Identity> {
        self.identities@
    }

    /// The stored external login links, in insertion order.
    pub closed spec fn link_rows(&self) -> Seq<ExternalLink> {
        self.links@
    }

    /// The uniqueness constraints hold and every link refers to a stored identity.
    pub open spec fn wf(&self) -> bool {
        store_ok(self.rows(), self.link_rows())
    }

    /// An empty store.
    pub fn new() -> (r: IdentityManager)
        ensures
            r.wf(),
            r.rows().len() == 0,
            r.link_rows().len() == 0,
    {
        IdentityManager { identities: Vec::new(), links: Vec::new() }
    }

    fn position(&self, find: &FindIdentity) -> (r: Option<usize>)
        requires
            self.wf(),
        ensures
            r is Some ==> r->0 < self.rows().len() && find_matches(self.rows()[r->0 as int], self.link_rows(), *find),
            r is None ==> forall|k: int| 0 <= k < self.rows().len() ==> !find_matches(#[trigger] self.rows()[k], self.link_rows(), *find),
    {
        let mut i: usize = 0;
        while i < self.identities.len()
            invariant
                i <= self.identities@.len(),
                forall|k: int| 0 <= k < i ==> !find_matches(#[trigger] self.identities@[k], self.links@, *find),
            decreases self.identities@.len() - i,
        {
            let row = &self.identities[i];
            let hit = match find {
                FindIdentity::UserId(id) => row.user_id == *id,
                FindIdentity::Email(e) => match &row.email {
                    Some(x) => same_text(x.as_str(), *e),
                    None => false,
                },
                FindIdentity::Name(n) => same_text(row.name.as_str(), *n),
                FindIdentity::ExternalLogin(x) => self.link_index(&x.provider, &x.provider_id, Some(row.user_id)).is_some(),
            };
            if hit {
                return Some(i);
            }
            i = i + 1;
        }
        None
    }

    /// The position of the link of this provider account (of this user, if given).
    fn link_index(&self, provider: &String, provider_id: &String, user_id: Option<u128>) -> (r: Option<usize>)
        ensures
            r is Some ==> r->0 < self.links@.len() && self.links@[r->0 as int].provider@ == provider@
                && self.links@[r->0 as int].provider_id@ == provider_id@
                && (user_id is Some ==> self.links@[r->0 as int].user_id == user_id->0),
            r is None ==> forall|k: int| 0 <= k < self.links@.len() ==> !(#[trigger] self.links@[k].provider@ == provider@
                && self.links@[k].provider_id@ == provider_id@
                && (user_id is Some ==> self.links@[k].user_id == user_id->0)),
    {
        let mut i: usize = 0;
        while i < self.links.len()
            invariant
                i <= self.links@.len(),
                forall|k: int| 0 <= k < i ==> !(#[trigger] self.links@[k].provider@ == provider@
                    && self.links@[k].provider_id@ == provider_id@
                    && (user_id is Some ==> self.links@[k].user_id == user_id->0)),
            decreases self.links@.len() - i,
        {
            let l = &self.links[i];
            let same_user = match user_id {
                Some(id) => l.user_id == id,
                None => true,
            };
            if l.provider == *provider && l.provider_id == *provider_id && same_user {
                return Some(i);
            }
            i = i + 1;
        }
        None
    }

    /// Register a new identity of kind `User`, with its external login link if
    /// one is given. Nothing is stored unless both rows can be: a taken user id,
    /// name, email or provider account is reported, checked in that order.
    pub fn create_user(
        &mut self,
        user_id: u128,
        user_name: &str,
        email: Option<&str>,
        external_login: Option<&ExternalLoginInfo>,
    ) -> (r: Result<Identity, IdentityError>)
        requires
            old(self).wf(),
        ensures
            final(self).wf(),
            (r matches Err(IdentityError::UserIdConflict)) <==> id_taken(old(self).rows(), user_id),
            (r matches Err(IdentityError::NameConflict)) <==> !id_taken(old(self).rows(), user_id)
                && name_taken(old(self).rows(), user_name@),
            (r matches Err(IdentityError::LinkEmailConflict)) <==> !id_taken(old(self).rows(), user_id)
                && !name_taken(old(self).rows(), user_name@)
                && email is Some && email_taken(old(self).rows(), email->0@),
            (r matches Err(IdentityError::LinkProviderConflict)) <==> !id_taken(old(self).rows(), user_id)
                && !name_taken(old(self).rows(), user_name@)
                && !(email is Some && email_taken(old(self).rows(), email->0@))
                && external_login is Some
                && link_taken(old(self).link_rows(), external_login->0.provider@, external_login->0.provider_id@),
            r is Ok <==> !id_taken(old(self).rows(), user_id)
                && !name_taken(old(self).rows(), user_name@)
                && !(email is Some && email_taken(old(self).rows(), email->0@))
                && !(external_login is Some
                    && link_taken(old(self).link_rows(), external_login->0.provider@, external_login->0.provider_id@)),
            r is Err ==> final(self).rows() == old(self).rows() && final(self).link_rows() == old(self).link_rows(),
            r is Ok ==> created_as(r->Ok_0, user_id, user_name@, str_view(email))
                && final(self).rows() == old(self).rows().push(r->Ok_0),
            r is Ok && external_login is None ==> final(self).link_rows() == old(self).link_rows(),
            r is Ok && external_login is Some ==> final(self).link_rows().len() == old(self).link_rows().len() + 1
                && final(self).link_rows().drop_last() == old(self).link_rows()
                && link_of(final(self).link_rows().last(), user_id, *external_login->0),
    {
        let mut id_hit = false;
        let mut name_hit = false;
        let mut email_hit = false;
        let mut i: usize = 0;
        while i < self.identities.len()
            invariant
                i <= self.identities@.len(),
                id_hit <==> exists|k: int| 0 <= k < i && (#[trigger] self.identities@[k]).user_id == user_id,
                name_hit <==> exists|k: int| 0 <= k < i && (#[trigger] self.identities@[k]).name@ == user_name@,
                email_hit <==> (email is Some && exists|k: int| 0 <= k < i
                    && opt_view((#[trigger] self.identities@[k]).email) == Some(email->0@)),
            decreases self.identities@.len() - i,
        {
            let row = &self.identities[i];
            if row.user_id == user_id {
                id_hit = true;
            }
            if same_text(row.name.as_str(), user_name) {
                name_hit = true;
            }
            match (&row.email, email) {
                (Some(x), Some(e)) => {
                    if same_text(x.as_str(), e) {
                        email_hit = true;
                    }
                },
                _ => {},
            }
            i = i + 1;
        }
        if id_hit {
            return Err(IdentityError::UserIdConflict);
        }
        if name_hit {
            return Err(IdentityError::NameConflict);
        }
        if email_hit {
            return Err(IdentityError::LinkEmailConflict);
        }
        if let Some(x) = external_login {
            if self.link_index(&x.provider, &x.provider_id, None).is_some() {
                return Err(IdentityError::LinkProviderConflict);
            }
        }
        let now = now_unix();
        let identity = Identity {
            user_id,
            kind: IdentityKind::User,
            name: user_name.to_owned(),
            email: match email {
                Some(e) => Some(e.to_owned()),
                None => None,
            },
            is_email_confirmed: false,
            creation: now,
        };
        let ghost old_rows = self.identities@;
        self.identities.push(identity.duplicate());
        assert forall|k: int| 0 <= k < old_rows.len() implies rows_distinct(old_rows[k], identity)
            && rows_distinct(identity, old_rows[k]) by {
            assert(old_rows[k] == self.identities@[k]);
        }
        if let Some(x) = external_login {
            self.links.push(ExternalLink {
                provider: x.provider.clone(),
                provider_id: x.provider_id.clone(),
                user_id,
                linked_at: now,
            });
            assert(self.links@.drop_last() =~= old(self).links@);
        }
        assert forall|k: int| 0 <= k < self.links@.len() implies id_taken(self.identities@, #[trigger] self.links@[k].user_id) by {
            if k < old(self).links@.len() {
                let w = choose|m: int| 0 <= m < old_rows.len() && old_rows[m].user_id == self.links@[k].user_id;
                assert(self.identities@[w] == old_rows[w]);
            } else {
                assert(self.identities@[old_rows.len() as int] == identity);
            }
        }
        Ok(identity)
    }

    /// Log in with a provider account: the identity it is linked to, when
    /// there is one, and otherwise a new identity `new_user_id` named `name`,
    /// registered together with its link to the account.
    pub fn login_external(
        &mut self,
        login: &ExternalLoginInfo,
        new_user_id: u128,
        name: &str,
        email: Option<&str>,
    ) -> (r: Result<Identity, IdentityError>)
        requires
            old(self).wf(),
        ensures
            final(self).wf(),
            link_taken(old(self).link_rows(), login.provider@, login.provider_id@) ==> {
                &&& r is Ok
                &&& final(self).rows() == old(self).rows()
                &&& final(self).link_rows() == old(self).link_rows()
                &&& find_answer(old(self).rows(), old(self).link_rows(), FindIdentity::ExternalLogin(login), Some(r->Ok_0))
            },
            !link_taken(old(self).link_rows(), login.provider@, login.provider_id@) ==> {
                &&& (r matches Err(IdentityError::UserIdConflict)) <==> id_taken(old(self).rows(), new_user_id)
                &&& (r matches Err(IdentityError::NameConflict)) <==> !id_taken(old(self).rows(), new_user_id)
                    && name_taken(old(self).rows(), name@)
                &&& (r matches Err(IdentityError::LinkEmailConflict)) <==> !id_taken(old(self).rows(), new_user_id)
                    && !name_taken(old(self).rows(), name@) && email is Some && email_taken(old(self).rows(), email->0@)
                &&& r is Ok <==> !id_taken(old(self).rows(), new_user_id) && !name_taken(old(self).rows(), name@)
                    && !(email is Some && email_taken(old(self).rows(), email->0@))
                &&& r is Err ==> final(self).rows() == old(self).rows() && final(self).link_rows() == old(self).link_rows()
                &&& r is Ok ==> created_as(r->Ok_0, new_user_id, name@, str_view(email))
                    && final(self).rows() == old(self).rows().push(r->Ok_0)
                    && final(self).link_rows().drop_last() == old(self).link_rows()
                    && link_of(final(self).link_rows().last(), new_user_id, *login)
            },
    {
        let find = FindIdentity::ExternalLogin(login);
        match self.position(&find) {
            Some(k) => {
                return Ok(self.identities[k].duplicate());
            },
            None => {
                proof {
                    if link_taken(self.links@, login.provider@, login.provider_id@) {
                        let l = choose|l: int| 0 <= l < self.links@.len() && self.links@[l].provider@ == login.provider@
                            && self.links@[l].provider_id@ == login.provider_id@;
                        assert(id_taken(self.identities@, self.links@[l].user_id));
                        let w = choose|w: int| 0 <= w < self.identities@.len()
                            && self.identities@[w].user_id == self.links@[l].user_id;
                        assert(find_matches(self.identities@[w], self.links@, find));
                    }
                }
            },
        }
        self.create_user(new_user_id, name, email, Some(login))
    }

    /// Bind a provider account to the identity `user_id`.
    pub fn link_user(&mut self, user_id: u128, external_login: &ExternalLoginInfo) -> (r: Result<(), IdentityError>)
        requires
            old(self).wf(),
        ensures
            final(self).wf(),
            final(self).rows() == old(self).rows(),
            (r matches Err(IdentityError::LinkProviderConflict)) <==> link_taken(old(self).link_rows(),
                external_login.provider@, external_login.provider_id@),
            (r matches Err(IdentityError::DBError(DBError::Conflict))) <==> !link_taken(old(self).link_rows(),
                external_login.provider@, external_login.provider_id@) && !id_taken(old(self).rows(), user_id),
            r is Ok <==> !link_taken(old(self).link_rows(), external_login.provider@, external_login.provider_id@)
                && id_taken(old(self).rows(), user_id),
            r is Err ==> final(self).link_rows() == old(self).link_rows(),
            r is Ok ==> final(self).link_rows().len() == old(self).link_rows().len() + 1
                && final(self).link_rows().drop_last() == old(self).link_rows()
                && link_of(final(self).link_rows().last(), user_id, *external_login),
    {
        if self.link_index(&external_login.provider, &external_login.provider_id, None).is_some() {
            return Err(IdentityError::LinkProviderConflict);
        }
        if self.position(&FindIdentity::UserId(user_id)).is_none() {
            return Err(IdentityError::DBError(DBError::Conflict));
        }
        self.links.push(ExternalLink {
            provider: external_login.provider.clone(),
            provider_id: external_login.provider_id.clone(),
            user_id,
            linked_at: now_unix(),
        });
        assert(self.links@.drop_last() =~= old(self).links@);
        Ok(())
    }

    /// Delete the identity `user_id`, and with it every link to it.
    pub fn delete_identity(&mut self, user_id: u128) -> (r: Result<(), IdentityError>)
        requires
            old(self).wf(),
        ensures
            r is Ok,
            final(self).wf(),
            final(self).rows() == old(self).rows().filter(other_user_row(user_id)),
            final(self).link_rows() == old(self).link_rows().filter(other_user_link(user_id)),
            !id_taken(old(self).rows(), user_id) ==> final(self).rows() == old(self).rows()
                && final(self).link_rows() == old(self).link_rows(),
    {
        let ghost old_rows = self.identities@;
        let mut i: usize = 0;
        assert(self.identities@.subrange(0, 0) + self.identities@.subrange(0, self.identities@.len() as int) =~= self.identities@);
        while i < self.identities.len()
            invariant
                i <= self.identities@.len(),
                old_rows.filter(other_user_row(user_id)) == self.identities@.subrange(0, i as int)
                    + self.identities@.subrange(i as int, self.identities@.len() as int).filter(other_user_row(user_id)),
                forall|k: int| 0 <= k < i ==> (#[trigger] self.identities@[k]).user_id != user_id,
                forall|a: int, b: int|
                    0 <= a < self.identities@.len() && 0 <= b < self.identities@.len() && a != b
                        ==> rows_distinct(#[trigger] self.identities@[a], #[trigger] self.identities@[b]),
                forall|k: int| 0 <= k < self.identities@.len() ==> old_rows.contains(#[trigger] self.identities@[k]),
                self.links@ == old(self).links@,
                old_rows == old(self).identities@,
                !id_taken(old_rows, user_id) ==> self.identities@ == old_rows,
            decreases self.identities@.len() - i,
        {
            let ghost cur = self.identities@;
            let ghost len = cur.len() as int;
            assert(cur.subrange(i as int, len) =~= seq![cur[i as int]] + cur.subrange(i + 1, len));
            proof {
                cur.subrange(i + 1, len).lemma_filter_prepend(cur[i as int], other_user_row(user_id));
            }
            if self.identities[i].user_id == user_id {
                proof {
                    let w = choose|w: int| 0 <= w < old_rows.len() && old_rows[w] == cur[i as int];
                    assert(old_rows[w].user_id == user_id);
                }
                self.identities.remove(i);
                assert(self.identities@.subrange(0, i as int) =~= cur.subrange(0, i as int));
                assert(self.identities@.subrange(i as int, self.identities@.len() as int) =~= cur.subrange(i + 1, len));
                assert(Seq::<Identity>::empty() + cur.subrange(i + 1, len).filter(other_user_row(user_id)) =~= cur.subrange(i + 1, len).filter(other_user_row(user_id)));
                assert forall|k: int| 0 <= k < self.identities@.len() implies old_rows.contains(#[trigger] self.identities@[k]) by {
                    if k < i {
                        assert(self.identities@[k] == cur[k]);
                    } else {
                        assert(self.identities@[k] == cur[k + 1]);
                    }
                }
            } else {
                assert(cur.subrange(0, i + 1) =~= cur.subrange(0, i as int) + seq![cur[i as int]]);
                assert(cur.subrange(0, i as int) + (seq![cur[i as int]] + cur.subrange(i + 1, len).filter(other_user_row(user_id)))
                    =~= cur.subrange(0, i + 1) + cur.subrange(i + 1, len).filter(other_user_row(user_id)));
                i = i + 1;
            }
        }
        assert(self.identities@.subrange(0, i as int) =~= self.identities@);
        proof {
            reveal(Seq::filter);
            assert(self.identities@.subrange(i as int, i as int).filter(other_user_row(user_id)) =~= Seq::<Identity>::empty());
            assert(self.identities@.subrange(0, i as int) + Seq::<Identity>::empty() =~= self.identities@);
        }
        let ghost old_links = self.links@;
        let mut j: usize = 0;
        assert(self.links@.subrange(0, 0) + self.links@.subrange(0, self.links@.len() as int) =~= self.links@);
        while j < self.links.len()
            invariant
                j <= self.links@.len(),
                old_links.filter(other_user_link(user_id)) == self.links@.subrange(0, j as int)
                    + self.links@.subrange(j as int, self.links@.len() as int).filter(other_user_link(user_id)),
                forall|k: int| 0 <= k < j ==> (#[trigger] self.links@[k]).user_id != user_id,
                forall|a: int, b: int|
                    0 <= a < self.links@.len() && 0 <= b < self.links@.len() && a != b
                        ==> links_distinct(#[trigger] self.links@[a], #[trigger] self.links@[b]),
                forall|k: int| 0 <= k < self.links@.len() ==> old_links.contains(#[trigger] self.links@[k]),
                old_links == old(self).links@,
                old_rows == old(self).identities@,
                old_rows.filter(other_user_row(user_id)) == self.identities@,
                old(self).wf(),
                !id_taken(old_rows, user_id) ==> self.links@ == old_links,
            decreases self.links@.len() - j,
        {
            let ghost cur = self.links@;
            let ghost len = cur.len() as int;
            assert(cur.subrange(j as int, len) =~= seq![cur[j as int]] + cur.subrange(j + 1, len));
            proof {
                cur.subrange(j + 1, len).lemma_filter_prepend(cur[j as int], other_user_link(user_id));
            }
            if self.links[j].user_id == user_id {
                proof {
                    let w = choose|w: int| 0 <= w < old_links.len() && old_links[w] == cur[j as int];
                    assert(id_taken(old(self).identities@, old_links[w].user_id));
                }
                self.links.remove(j);
                assert(self.links@.subrange(0, j as int) =~= cur.subrange(0, j as int));
                assert(self.links@.subrange(j as int, self.links@.len() as int) =~= cur.subrange(j + 1, len));
                assert(Seq::<ExternalLink>::empty() + cur.subrange(j + 1, len).filter(other_user_link(user_id)) =~= cur.subrange(j + 1, len).filter(other_user_link(user_id)));
                assert forall|k: int| 0 <= k < self.links@.len() implies old_links.contains(#[trigger] self.links@[k]) by {
                    if k < j {
                        assert(self.links@[k] == cur[k]);
                    } else {
                        assert(self.links@[k] == cur[k + 1]);
                    }
                }
            } else {
                assert(cur.subrange(0, j + 1) =~= cur.subrange(0, j as int) + seq![cur[j as int]]);
                assert(cur.subrange(0, j as int) + (seq![cur[j as int]] + cur.subrange(j + 1, len).filter(other_user_link(user_id)))
                    =~= cur.subrange(0, j + 1) + cur.subrange(j + 1, len).filter(other_user_link(user_id)));
                j = j + 1;
            }
        }
        assert(self.links@.subrange(0, j as int) =~= self.links@);
        proof {
            reveal(Seq::filter);
            assert(self.links@.subrange(j as int, j as int).filter(other_user_link(user_id)) =~= Seq::<ExternalLink>::empty());
            assert(self.links@.subrange(0, j as int) + Seq::<ExternalLink>::empty() =~= self.links@);
        }
        assert forall|k: int| 0 <= k < self.links@.len() implies id_taken(self.identities@, #[trigger] self.links@[k].user_id) by {
            let l = self.links@[k];
            let m = choose|m: int| 0 <= m < old_links.len() && old_links[m] == l;
            let w = choose|w: int| 0 <= w < old_rows.len() && old_rows[w].user_id == l.user_id;
            assert(l.user_id != user_id);
            assert(old_rows.contains(old_rows[w]));
            old_rows.lemma_filter_contains_rev(other_user_row(user_id), old_rows[w]);
            assert(old_rows.filter(other_user_row(user_id)).contains(old_rows[w]));
            let n = choose|n: int| 0 <= n < self.identities@.len() && self.identities@[n] == old_rows[w];
            assert(self.identities@[n].user_id == l.user_id);
        }
        Ok(())
    }

    /// The first page of identities that pass the filters of `search`, in its
    /// order, beyond its cursor: at most `count` of them, and never more than
    /// `MAX_SEARCH_COUNT`.
    pub fn search(&self, search: SearchIdentity<'_>) -> (r: Result<Vec<Identity>, DBError>)
        requires
            self.wf(),
        ensures
            r is Ok,
            search_result(self.rows(), search, r->Ok_0@),
    {
        let limit: usize = match search.count {
            Some(c) => if c < MAX_SEARCH_COUNT {
                c
            } else {
                MAX_SEARCH_COUNT
            },
            None => MAX_SEARCH_COUNT,
        };
        let ghost rows = self.identities@;
        let ghost order = search.order;
        let mut r: Vec<Identity> = Vec::new();
        let mut last: Option<usize> = None;
        let mut done = false;
        while r.len() < limit && !done
            invariant
                rows == self.identities@,
                order == search.order,
                self.wf(),
                limit == page_limit(search.count),
                r@.len() <= limit,
                forall|j: int| 0 <= j < r@.len() ==> rows.contains(#[trigger] r@[j]) && qualifies(r@[j], search),
                forall|a: int, b: int| 0 <= a < b < r@.len() ==> key_lt(row_key(#[trigger] r@[a], order), row_key(#[trigger] r@[b], order)),
                last is Some <==> r@.len() > 0,
                last is Some ==> last->0 < rows.len() && rows[last->0 as int] == r@.last(),
                forall|k: int| 0 <= k < rows.len() && qualifies(#[trigger] rows[k], search)
                    && last is Some && !key_lt(row_key(rows[last->0 as int], order), row_key(rows[k], order))
                    ==> r@.contains(rows[k]),
                done ==> forall|k: int| 0 <= k < rows.len() ==> !qualifies(#[trigger] rows[k], search)
                    || r@.contains(rows[k]),
            decreases limit - r@.len(), (if done { 0int } else { 1int }),
        {
            let mut best: Option<usize> = None;
            let mut k: usize = 0;
            while k < self.identities.len()
                invariant
                    rows == self.identities@,
                    order == search.order,
                    k <= rows.len(),
                    last is Some ==> last->0 < rows.len(),
                    best is Some ==> best->0 < k && qualifies(rows[best->0 as int], search)
                        && (last is None || key_lt(row_key(rows[last->0 as int], order), row_key(rows[best->0 as int], order))),
                    forall|m: int| 0 <= m < k && qualifies(#[trigger] rows[m], search)
                        && (last is None || key_lt(row_key(rows[last->0 as int], order), row_key(rows[m], order)))
                        ==> best is Some && !key_lt(row_key(rows[m], order), row_key(rows[best->0 as int], order)),
                decreases rows.len() - k,
            {
                let row = &self.identities[k];
                if passes(row, &search) {
                    let text = row_text(row, &search.order);
                    let above = match last {
                        Some(l) => {
                            let prev = &self.identities[l];
                            key_less(row_text(prev, &search.order), prev.user_id, text, row.user_id)
                        },
                        None => true,
                    };
                    if above {
                        let better = match best {
                            Some(b) => {
                                let cur = &self.identities[b];
                                key_less(text, row.user_id, row_text(cur, &search.order), cur.user_id)
                            },
                            None => true,
                        };
                        if better {
                            proof {
                                let kk = row_key(rows[k as int], order);
                                lemma_key_order(kk, kk, kk);
                                if best is Some {
                                    let kb = row_key(rows[best->0 as int], order);
                                    let kk = row_key(rows[k as int], order);
                                    assert forall|m: int| 0 <= m < k && qualifies(#[trigger] rows[m], search)
                                        && (last is None || key_lt(row_key(rows[last->0 as int], order), row_key(rows[m], order)))
                                        implies !key_lt(row_key(rows[m], order), kk) by {
                                        lemma_key_order(row_key(rows[m], order), kk, kb);
                                        lemma_key_order(kk, row_key(rows[m], order), kb);
                                        lemma_key_order(kk, kb, row_key(rows[m], order));
                                    }
                                }
                            }
                            best = Some(k);
                        }
                    }
                }
                k = k + 1;
            }
            match best {
                None => {
                    proof {
                        assert forall|k: int| 0 <= k < rows.len() && qualifies(#[trigger] rows[k], search)
                            implies r@.contains(rows[k]) by {
                            if last is Some {
                                let lk = row_key(rows[last->0 as int], order);
                                lemma_key_order(lk, row_key(rows[k], order), lk);
                            }
                        }
                    }
                    done = true;
                },
                Some(b) => {
                    let ghost old_r = r@;
                    let ghost kb = row_key(rows[b as int], order);
                    r.push(self.identities[b].duplicate());
                    proof {
                        assert(r@.last() == rows[b as int]);
                        assert forall|j: int| 0 <= j < r@.len() implies rows.contains(#[trigger] r@[j]) && qualifies(r@[j], search) by {
                            if j < old_r.len() {
                                assert(r@[j] == old_r[j]);
                            }
                        }
                        assert forall|a: int, c: int| 0 <= a < c < r@.len() implies key_lt(row_key(#[trigger] r@[a], order), row_key(#[trigger] r@[c], order)) by {
                            if c < old_r.len() {
                                assert(r@[a] == old_r[a] && r@[c] == old_r[c]);
                            } else {
                                assert(r@[a] == old_r[a]);
                                let lk = row_key(rows[last->0 as int], order);
                                if a < old_r.len() - 1 {
                                    assert(old_r[old_r.len() - 1] == old_r.last());
                                    lemma_key_order(row_key(old_r[a], order), lk, kb);
                                }
                            }
                        }
                        assert forall|k: int| 0 <= k < rows.len() && qualifies(#[trigger] rows[k], search)
                            && !key_lt(kb, row_key(rows[k], order)) implies r@.contains(rows[k]) by {
                            let kk = row_key(rows[k], order);
                            lemma_key_order(kb, kk, kb);
                            if last is Some && !key_lt(row_key(rows[last->0 as int], order), kk) {
                                assert(old_r.contains(rows[k]));
                                let w = choose|w: int| 0 <= w < old_r.len() && old_r[w] == rows[k];
                                assert(r@[w] == rows[k]);
                            } else {
                                assert(!key_lt(kk, kb));
                                assert(kk == kb);
                                if k != b as int {
                                    assert(rows_distinct(rows[k], rows[b as int]));
                                }
                                assert(r@[r@.len() - 1] == rows[k]);
                            }
                        }
                    }
                    last = Some(b);
                },
            }
        }
        proof {
            let r_final = r@;
            assert forall|k: int| 0 <= k < rows.len() && qualifies(#[trigger] rows[k], search) && !r_final.contains(rows[k])
                implies r_final.len() == page_limit(search.count)
                && (r_final.len() > 0 ==> key_lt(row_key(r_final.last(), order), row_key(rows[k], order))) by {
                if last is Some {
                    let lk = row_key(rows[last->0 as int], order);
                    let kk = row_key(rows[k], order);
                    lemma_key_order(lk, kk, lk);
                }
            }
        }
        Ok(r)
    }

    /// The identity answering `find`: at most one does.
    pub fn find(&self, find: FindIdentity<'_>) -> (r: Result<Option<Identity>, DBError>)
        requires
            self.wf(),
        ensures
            r is Ok,
            find_answer(self.rows(), self.link_rows(), find, r->Ok_0),
    {
        match self.position(&find) {
            Some(k) => Ok(Some(self.identities[k].duplicate())),
            None => Ok(None),
        }
    }
}


/// Looking up an identity that `create_user` has just stored, by its user id,
/// its name, or its email when it has one, answers exactly that identity.
pub proof fn lemma_created_identity_found(store: IdentityManager, created: Identity, find: FindIdentity, found: Option<Identity>)
    requires
        store.wf(),
        store.rows().len() > 0,
        store.rows().last() == created,
        find == FindIdentity::UserId(created.user_id)
            || (find is Name && find->Name_0@ == created.name@)
            || (find is Email && opt_view(created.email) == Some(find->Email_0@)),
        find_answer(store.rows(), store.link_rows(), find, found),
    ensures
        found == Some(created),
{
    let rows = store.rows();
    let last = rows.len() - 1;
    assert(rows[last] == created);
    assert(find_matches(rows[last], store.link_rows(), find));
    if found is Some {
        let k = choose|k: int| 0 <= k < rows.len() && rows[k] == found->0 && find_matches(rows[k], store.link_rows(), find);
        if k != last {
            assert(rows_distinct(rows[k], rows[last]));
        }
    }
}

/// A linked provider account stays taken: linking it again, to any user, is
/// refused by `link_user` and by `create_user`.
pub proof fn lemma_linked_account_taken(store: IdentityManager, user_id: u128, info: ExternalLoginInfo)
    requires
        store.link_rows().len() > 0,
        link_of(store.link_rows().last(), user_id, info),
    ensures
        link_taken(store.link_rows(), info.provider@, info.provider_id@),
{
    assert(store.link_rows()[store.link_rows().len() - 1] == store.link_rows().last());
}

/// Keyset pages neither overlap nor leave gaps. Let `page1` answer `first`,
/// and `page2` answer `next`: the same filters, in the same order, with the
/// cursor at the last identity of `page1`. Every identity of `page2` then
/// sorts after every identity of `page1`, and every identity that `first`
/// selects and that sorts no later than the end of `page2` is on one of the two pages.
pub proof fn lemma_pages_continue(
    store: IdentityManager,
    first: SearchIdentity,
    page1: Seq<Identity>,
    next: SearchIdentity,
    page2: Seq<Identity>,
)
    requires
        store.wf(),
        search_result(store.rows(), first, page1),
        search_result(store.rows(), next, page2),
        page1.len() > 0,
        next.user_ids == first.user_ids,
        next.names == first.names,
        next.emails == first.emails,
        forall|i: Identity| row_key(i, next.order) == row_key(i, first.order),
        cursor_key(next.order) == Some(row_key(page1.last(), first.order)),
    ensures
        forall|a: int, b: int| 0 <= a < page1.len() && 0 <= b < page2.len()
            ==> key_lt(row_key(#[trigger] page1[a], first.order), row_key(#[trigger] page2[b], first.order)),
        forall|k: int| 0 <= k < store.rows().len() && qualifies(#[trigger] store.rows()[k], first)
            && (page2.len() > 0 && !key_lt(row_key(page2.last(), first.order), row_key(store.rows()[k], first.order)))
            ==> page1.contains(store.rows()[k]) || page2.contains(store.rows()[k]),
{
    let rows = store.rows();
    let o = first.order;
    let lk = row_key(page1.last(), o);
    assert(page1[page1.len() - 1] == page1.last());
    assert forall|a: int, b: int| 0 <= a < page1.len() && 0 <= b < page2.len()
        implies key_lt(row_key(#[trigger] page1[a], o), row_key(#[trigger] page2[b], o)) by {
        assert(qualifies(page2[b], next));
        assert(row_key(page2[b], next.order) == row_key(page2[b], o));
        if a < page1.len() - 1 {
            lemma_key_order(row_key(page1[a], o), lk, row_key(page2[b], o));
        }
    }
    assert forall|k: int| 0 <= k < rows.len() && qualifies(#[trigger] rows[k], first)
        && (page2.len() > 0 && !key_lt(row_key(page2.last(), o), row_key(rows[k], o)))
        implies page1.contains(rows[k]) || page2.contains(rows[k]) by {
        if !page1.contains(rows[k]) {
            assert(key_lt(lk, row_key(rows[k], o)));
            assert(row_key(rows[k], next.order) == row_key(rows[k], o));
            assert(qualifies(rows[k], next));
            assert(row_key(page2.last(), next.order) == row_key(page2.last(), o));
        }
    }
}


/// On a well-formed store a lookup has one answer at most: when the stored
/// identity at `k` matches `find`, the answer is exactly that identity.
pub proof fn lemma_find_answers_match(store: IdentityManager, find: FindIdentity, k: int, found: Option<Identity>)
    requires
        store.wf(),
        0 <= k < store.rows().len(),
        find_matches(store.rows()[k], store.link_rows(), find),
        find_answer(store.rows(), store.link_rows(), find, found),
    ensures
        found == Some(store.rows()[k]),
{
    let rows = store.rows();
    let links = store.link_rows();
    if found is None {
        assert(!find_matches(rows[k], links, find));
    } else {
        let k2 = choose|k2: int| 0 <= k2 < rows.len() && rows[k2] == found->0 && find_matches(rows[k2], links, find);
        if k2 != k {
            assert(rows_distinct(rows[k], rows[k2]));
            if let FindIdentity::ExternalLogin(x) = find {
                let l1 = choose|l: int| 0 <= l < links.len() && links[l].provider@ == x.provider@
                    && links[l].provider_id@ == x.provider_id@ && links[l].user_id == rows[k].user_id;
                let l2 = choose|l: int| 0 <= l < links.len() && links[l].provider@ == x.provider@
                    && links[l].provider_id@ == x.provider_id@ && links[l].user_id == rows[k2].user_id;
                if l1 != l2 {
                    assert(links_distinct(links[l1], links[l2]));
                }
            }
        }
    }
}

/// A store whose tables are unchanged answers every lookup as before. So
/// after a refused `create_user` or `link_user`, which keep both tables, no
/// lookup finds a new identity and every stored one is found unchanged.
pub proof fn lemma_unchanged_store_same_answers(
    before: IdentityManager,
    after: IdentityManager,
    find: FindIdentity,
    found_before: Option<Identity>,
    found_after: Option<Identity>,
)
    requires
        before.wf(),
        after.rows() == before.rows(),
        after.link_rows() == before.link_rows(),
        find_answer(before.rows(), before.link_rows(), find, found_before),
        find_answer(after.rows(), after.link_rows(), find, found_after),
    ensures
        found_after == found_before,
{
    if found_before is Some {
        let k = choose|k: int| 0 <= k < before.rows().len() && before.rows()[k] == found_before->0
            && find_matches(before.rows()[k], before.link_rows(), find);
        lemma_find_answers_match(before, find, k, found_after);
    } else if found_after is Some {
        let k = choose|k: int| 0 <= k < after.rows().len() && after.rows()[k] == found_after->0
            && find_matches(after.rows()[k], after.link_rows(), find);
        assert(!find_matches(before.rows()[k], before.link_rows(), find));
    }
}

/// A provider account linked to `user_id` is found as that user's identity:
/// a later refused attempt to link it elsewhere, which keeps the links,
/// leaves the first link in force.
pub proof fn lemma_linked_account_found(store: IdentityManager, find: FindIdentity, user_id: u128, found: Option<Identity>)
    requires
        store.wf(),
        find is ExternalLogin,
        exists|l: int| 0 <= l < store.link_rows().len() && link_of(store.link_rows()[l], user_id, *find->ExternalLogin_0),
        find_answer(store.rows(), store.link_rows(), find, found),
    ensures
        found is Some,
        found->0.user_id == user_id,
{
    let rows = store.rows();
    let links = store.link_rows();
    let l = choose|l: int| 0 <= l < links.len() && link_of(links[l], user_id, *find->ExternalLogin_0);
    assert(id_taken(rows, links[l].user_id));
    let w = choose|w: int| 0 <= w < rows.len() && rows[w].user_id == links[l].user_id;
    assert(find_matches(rows[w], links, find));
    lemma_find_answers_match(store, find, w, found);
}


proof fn lemma_result_not_ahead(rows: Seq<Identity>, links: Seq<ExternalLink>, q: SearchIdentity, r1: Seq<Identity>, r2: Seq<Identity>, m: int)
    requires
        store_ok(rows, links),
        search_result(rows, q, r1),
        search_result(rows, q, r2),
        0 <= m < r1.len(),
        m < r2.len(),
        forall|t: int| 0 <= t < m ==> r1[t] == r2[t],
    ensures
        !key_lt(row_key(r1[m], q.order), row_key(r2[m], q.order)),
{
    let o = q.order;
    let a = r1[m];
    let b = r2[m];
    let ka = row_key(a, o);
    let kb = row_key(b, o);
    if key_lt(ka, kb) {
        lemma_key_order(ka, kb, ka);
        if r2.contains(a) {
            let t = choose|t: int| 0 <= t < r2.len() && r2[t] == a;
            if t < m {
                assert(r1[t] == r2[t]);
                assert(key_lt(row_key(r1[t], o), row_key(r1[m], o)));
            } else if t > m {
                assert(key_lt(row_key(r2[m], o), row_key(r2[t], o)));
            }
        } else {
            let k = choose|k: int| 0 <= k < rows.len() && rows[k] == a;
            assert(qualifies(rows[k], q));
            let n = r2.len() - 1;
            assert(r2[n] == r2.last());
            let kl = row_key(r2.last(), o);
            if n > m {
                assert(key_lt(kb, row_key(r2[n], o)));
                lemma_key_order(ka, kb, kl);
                lemma_key_order(ka, kl, ka);
            }
        }
    }
}

proof fn lemma_results_agree_upto(rows: Seq<Identity>, links: Seq<ExternalLink>, q: SearchIdentity, r1: Seq<Identity>, r2: Seq<Identity>, j: int)
    requires
        store_ok(rows, links),
        search_result(rows, q, r1),
        search_result(rows, q, r2),
        0 <= j <= r1.len(),
        j <= r2.len(),
    ensures
        forall|t: int| 0 <= t < j ==> r1[t] == r2[t],
    decreases j,
{
    if j > 0 {
        let m = j - 1;
        lemma_results_agree_upto(rows, links, q, r1, r2, m);
        lemma_result_not_ahead(rows, links, q, r1, r2, m);
        lemma_result_not_ahead(rows, links, q, r2, r1, m);
        let ka = row_key(r1[m], q.order);
        let kb = row_key(r2[m], q.order);
        lemma_key_order(ka, kb, ka);
        let x = choose|x: int| 0 <= x < rows.len() && rows[x] == r1[m];
        let y = choose|y: int| 0 <= y < rows.len() && rows[y] == r2[m];
        if x != y {
            assert(rows_distinct(rows[x], rows[y]));
        }
    }
}

/// A search has one answer: two answers to the same search over the same
/// well-formed tables are equal.
pub proof fn lemma_search_result_unique(rows: Seq<Identity>, links: Seq<ExternalLink>, q: SearchIdentity, r1: Seq<Identity>, r2: Seq<Identity>)
    requires
        store_ok(rows, links),
        search_result(rows, q, r1),
        search_result(rows, q, r2),
    ensures
        r1 == r2,
{
    let n = if r1.len() < r2.len() { r1.len() } else { r2.len() };
    lemma_results_agree_upto(rows, links, q, r1, r2, n as int);
    if r1.len() < r2.len() {
        let y = r2[n as int];
        if r1.contains(y) {
            let t = choose|t: int| 0 <= t < r1.len() && r1[t] == y;
            assert(r2[t] == r1[t]);
            assert(key_lt(row_key(r2[t], q.order), row_key(r2[n as int], q.order)));
            lemma_key_order(row_key(y, q.order), row_key(y, q.order), row_key(y, q.order));
        } else {
            let k = choose|k: int| 0 <= k < rows.len() && rows[k] == y;
            assert(qualifies(rows[k], q));
        }
    } else if r2.len() < r1.len() {
        let y = r1[n as int];
        if r2.contains(y) {
            let t = choose|t: int| 0 <= t < r2.len() && r2[t] == y;
            assert(r1[t] == r2[t]);
            assert(key_lt(row_key(r1[t], q.order), row_key(r1[n as int], q.order)));
            lemma_key_order(row_key(y, q.order), row_key(y, q.order), row_key(y, q.order));
        } else {
            let k = choose|k: int| 0 <= k < rows.len() && rows[k] == y;
            assert(qualifies(rows[k], q));
        }
    }
    assert(r1 =~= r2);
}

/// A keyset page is stable under unrelated changes: when every identity of
/// `before` is still stored in `after`, and every identity added since lies
/// at or before the cursor or fails the filters, the same search answers the
/// same page on both stores, with no row repeated or skipped.
pub proof fn lemma_page_stable(
    before: IdentityManager,
    after: IdentityManager,
    q: SearchIdentity,
    page_before: Seq<Identity>,
    page_after: Seq<Identity>,
)
    requires
        before.wf(),
        after.wf(),
        forall|x: Identity| before.rows().contains(x) ==> after.rows().contains(x),
        forall|x: Identity| after.rows().contains(x) && !before.rows().contains(x) ==> !qualifies(x, q),
        search_result(before.rows(), q, page_before),
        search_result(after.rows(), q, page_after),
    ensures
        page_after == page_before,
{
    let rows1 = before.rows();
    let rows2 = after.rows();
    let r = page_before;
    assert forall|j: int| 0 <= j < r.len() implies rows2.contains(#[trigger] r[j]) && qualifies(r[j], q) by {
        assert(rows1.contains(r[j]));
    }
    assert forall|k: int| 0 <= k < rows2.len() && qualifies(#[trigger] rows2[k], q) && !r.contains(rows2[k])
        implies r.len() == page_limit(q.count) && (r.len() > 0 ==> key_lt(row_key(r.last(), q.order), row_key(rows2[k], q.order))) by {
        assert(rows2.contains(rows2[k]));
        assert(rows1.contains(rows2[k]));
        let k1 = choose|k1: int| 0 <= k1 < rows1.len() && rows1[k1] == rows2[k];
        assert(qualifies(rows1[k1], q));
    }
    assert(search_result(rows2, q, page_before));
    lemma_search_result_unique(rows2, after.link_rows(), q, page_before, page_after);
}

} // verus!
