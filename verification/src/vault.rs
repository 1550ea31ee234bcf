//! Credentials out of the records of a credential database, and out of the payload
//! of a QR code.
//!
//! Neither the database nor the image is read here. The caller decrypts and parses
//! the database and hands over its nodes and icons as plain values; the caller finds
//! and decodes the QR codes of an image and hands over their payloads. Which records
//! and which payload become credentials, under which name and with which icon, is
//! decided and verified here.

use crate::error::{Error, ErrorKind};
use crate::otpauth::{parsed, well_formed, Credential, ParseError, ParsedUrl};
use crate::text::{decimal_text, render_decimal};
use crate::totp::{from_now_with_period, hotp, window_start, TotpToken};
use vstd::prelude::*;
use vstd::string::StringExecFns;

verus! {

/// Why a database could not be opened.
#[derive(Debug, Clone, Copy, PartialEq, Eq)]
pub enum DatabaseFailure {
    /// The key does not fit: the password is wrong.
    IncorrectKey,
    /// The bytes are no database that can be read.
    Unreadable,
}

/// What is read of an entry of a database.
#[derive(Debug, Clone, PartialEq, Eq)]
pub struct Record {
    pub title: Option<String>,
    pub url: Option<String>,
    pub icon: Option<u128>,
}

/// A node of the tree of a database.
#[derive(Debug, Clone, PartialEq, Eq)]
pub enum Node {
    Group,
    Entry(Record),
}

/// A custom icon of a database: its id and its image file.
#[derive(Debug, Clone, PartialEq, Eq)]
pub struct CustomIcon {
    pub id: u128,
    pub data: Vec<u8>,
}

/// What a [`Record`] holds.
pub struct RecordView {
    pub title: Option<Seq<char>>,
    pub url: Option<Seq<char>>,
    pub icon: Option<u128>,
}

/// What a [`Node`] holds.
pub enum NodeView {
    Group,
    Entry(RecordView),
}

/// What a [`CustomIcon`] holds.
pub struct IconView {
    pub id: u128,
    pub data: Seq<u8>,
}

/// The text of an optional string.
pub open spec fn text_view(text: Option<String>) -> Option<Seq<char>> {
    match text {
        Some(text) => Some(text@),
        None => None,
    }
}

impl View for Record {
    type V = RecordView;

    open spec fn view(&self) -> RecordView {
        RecordView { title: text_view(self.title), url: text_view(self.url), icon: self.icon }
    }
}

impl View for Node {
    type V = NodeView;

    open spec fn view(&self) -> NodeView {
        match self {
            Node::Group => NodeView::Group,
            Node::Entry(record) => NodeView::Entry(record@),
        }
    }
}

impl View for CustomIcon {
    type V = IconView;

    open spec fn view(&self) -> IconView {
        IconView { id: self.id, data: self.data@ }
    }
}

/// The views of a list of nodes.
pub open spec fn node_views(nodes: Seq<Node>) -> Seq<NodeView> {
    Seq::new(nodes.len(), |i: int| nodes[i]@)
}

/// The views of a list of icons.
pub open spec fn icon_views(icons: Seq<CustomIcon>) -> Seq<IconView> {
    Seq::new(icons.len(), |i: int| icons[i]@)
}

/// The texts of a list of payloads.
pub open spec fn payload_views(payloads: Seq<Option<String>>) -> Seq<Option<Seq<char>>> {
    Seq::new(payloads.len(), |i: int| text_view(payloads[i]))
}

/// A credential with the name it is shown under and the place of its icon among the
/// custom icons of its database.
#[derive(Debug, Clone)]
pub struct VaultSecret {
    pub name: String,
    parsed_url: ParsedUrl,
    pub icon: Option<usize>,
}

/// What a [`VaultSecret`] holds.
pub struct SecretView {
    pub name: Seq<char>,
    pub credential: Credential,
    pub icon: Option<usize>,
}

impl View for VaultSecret {
    type V = SecretView;

    closed spec fn view(&self) -> SecretView {
        SecretView { name: self.name@, credential: self.parsed_url@, icon: self.icon }
    }
}

/// The views of a list of secrets.
pub open spec fn secret_views(secrets: Seq<VaultSecret>) -> Seq<SecretView> {
    Seq::new(secrets.len(), |i: int| secrets[i]@)
}

/// The name of a credential that comes without one: its issuer and its account.
pub open spec fn display_name(credential: Credential) -> Seq<char> {
    credential.issuer + ": "@ + credential.account_name
}

/// The secret of the payloads of an image: of the first payload, which must be
/// there, must have been decoded and must be an `otpauth` address.
pub open spec fn secret_of_payloads(payloads: Seq<Option<Seq<char>>>) -> Result<
    SecretView,
    ErrorKind,
> {
    if payloads.len() == 0 {
        Err(ErrorKind::NoPayload)
    } else {
        match payloads[0] {
            None => Err(ErrorKind::NoPayload),
            Some(payload) => match parsed(payload) {
                Err(e) => Err(ErrorKind::InvalidPayload(e)),
                Ok(credential) => Ok(
                    SecretView { name: display_name(credential), credential, icon: None },
                ),
            },
        }
    }
}

/// `result` is `expected`, the secret taken by its view and the error by its kind.
pub open spec fn matches_secret(
    result: Result<VaultSecret, Error>,
    expected: Result<SecretView, ErrorKind>,
) -> bool {
    match result {
        Ok(secret) => expected == Ok::<SecretView, ErrorKind>(secret@),
        Err(e) => expected == Err::<SecretView, ErrorKind>(e.kind),
    }
}

impl VaultSecret {
    /// The credential is well formed.
    pub open spec fn well_formed(&self) -> bool {
        well_formed(self@.credential)
    }

    /// The secret of the QR codes detected in an image, given the payload of each
    /// code, `None` for a code that could not be decoded. Only the first counts.
    pub fn from_payloads(payloads: &Vec<Option<String>>) -> (result: Result<VaultSecret, Error>)
        ensures
            matches_secret(result, secret_of_payloads(payload_views(payloads@))),
            result matches Ok(secret) ==> secret.well_formed(),
    {
        if payloads.len() == 0 {
            return Err(Error::new(ErrorKind::NoPayload));
        }
        match &payloads[0] {
            None => Err(Error::new(ErrorKind::NoPayload)),
            Some(payload) => match ParsedUrl::parse(payload.as_str()) {
                Err(e) => Err(Error::new(ErrorKind::InvalidPayload(e))),
                Ok(parsed_url) => {
                    let mut name = parsed_url.issuer.clone();
                    name.append(": ");
                    name.append(parsed_url.account_name.as_str());
                    Ok(VaultSecret { name, parsed_url, icon: None })
                },
            },
        }
    }

    /// The name that the secret is shown under.
    pub fn name(&self) -> (name: &str)
        ensures
            name@ == self@.name,
    {
        self.name.as_str()
    }

    /// The place of its icon among the custom icons of its database, if it has one.
    pub fn icon(&self) -> (icon: Option<usize>)
        ensures
            icon == self@.icon,
    {
        self.icon
    }

    /// The address that the secret was read from.
    pub fn url(&self) -> (url: &str)
        ensures
            url@ == self@.credential.raw,
    {
        self.parsed_url.raw.as_str()
    }

    /// The shared secret, as bytes.
    pub fn secret(&self) -> (secret: &[u8])
        ensures
            secret@ == self@.credential.secret,
    {
        self.parsed_url.secret.as_slice()
    }

    /// The length of a time window in seconds.
    pub fn period(&self) -> (period: u64)
        ensures
            period == self@.credential.period,
    {
        self.parsed_url.period
    }

    /// The number of digits of a code.
    pub fn digits(&self) -> (digits: usize)
        ensures
            digits == self@.credential.digits,
    {
        self.parsed_url.digits
    }

    /// The token of this secret at `now`, in seconds since the epoch.
    pub fn current_token(&self, now: u64) -> (token: TotpToken)
        requires
            self.well_formed(),
            window_start(now, self@.credential.period) + self@.credential.period <= u64::MAX,
        ensures
            token.number == hotp(
                self@.credential.secret,
                now / self@.credential.period,
                self@.credential.digits as nat,
            ),
            token.window_start == window_start(now, self@.credential.period),
            token.window_end == token.window_start + self@.credential.period,
            token.window_start <= now < token.window_end,
    {
        from_now_with_period(
            self.parsed_url.secret.as_slice(),
            self.parsed_url.period,
            self.parsed_url.digits,
            now,
        )
    }
}

/// The place of the last icon with the id `id`.
pub open spec fn icon_slot(icons: Seq<IconView>, id: u128) -> Option<usize>
    decreases icons.len(),
{
    if icons.len() == 0 {
        None
    } else if icons.last().id == id {
        Some((icons.len() - 1) as usize)
    } else {
        icon_slot(icons.drop_last(), id)
    }
}

/// The name of the node at `index`: its title, or `entry:` and the index.
pub open spec fn record_name(record: RecordView, index: nat) -> Seq<char> {
    match record.title {
        Some(title) => title,
        None => "entry:"@ + decimal_text(index),
    }
}

/// Why a node of a database gives no secret.
#[derive(Debug, Clone, Copy, PartialEq, Eq)]
pub enum Skipped {
    /// The node is a group.
    Group,
    /// The entry has no address.
    NoAddress,
    /// The address of the entry is no `otpauth` address of a credential.
    NoCredential(ParseError),
}

/// What the node at `index` gives: the secret of an entry whose address is an
/// `otpauth` address, or why there is none.
pub open spec fn node_outcome(node: NodeView, index: nat, icons: Seq<IconView>) -> Result<
    SecretView,
    Skipped,
> {
    match node {
        NodeView::Group => Err(Skipped::Group),
        NodeView::Entry(record) => match record.url {
            None => Err(Skipped::NoAddress),
            Some(url) => match parsed(url) {
                Err(e) => Err(Skipped::NoCredential(e)),
                Ok(credential) => Ok(
                    SecretView {
                        name: record_name(record, index),
                        credential,
                        icon: match record.icon {
                            Some(id) => icon_slot(icons, id),
                            None => None,
                        },
                    },
                ),
            },
        },
    }
}

/// The secret of the node at `index`, if it gives one.
pub open spec fn secret_of_node(node: NodeView, index: nat, icons: Seq<IconView>) -> Option<
    SecretView,
> {
    match node_outcome(node, index, icons) {
        Ok(secret) => Some(secret),
        Err(_) => None,
    }
}

/// A secret or the reason why there is none, the secret taken by its view.
pub open spec fn skipped_view(outcome: Result<VaultSecret, Skipped>) -> Result<
    SecretView,
    Skipped,
> {
    match outcome {
        Ok(secret) => Ok(secret@),
        Err(reason) => Err(reason),
    }
}

/// The secrets of the first `count` nodes, in their order.
pub open spec fn secrets_of(nodes: Seq<NodeView>, count: nat, icons: Seq<IconView>) -> Seq<
    SecretView,
>
    decreases count,
{
    if count == 0 {
        Seq::empty()
    } else {
        let before = secrets_of(nodes, (count - 1) as nat, icons);
        match secret_of_node(nodes[count - 1], (count - 1) as nat, icons) {
            Some(secret) => before.push(secret),
            None => before,
        }
    }
}

/// An opened database: where it came from, the nodes of its tree in the order of a
/// walk from the root, groups included, and its custom icons.
pub struct Vault {
    pub path: String,
    pub nodes: Vec<Node>,
    pub custom_icons: Vec<CustomIcon>,
}

impl Vault {
    /// The vault of a database that was parsed, or the error for one that was not:
    /// a key that does not fit is an invalid password, anything else a corrupt
    /// container.
    pub fn from_parsed(
        path: String,
        parsed: Result<(Vec<Node>, Vec<CustomIcon>), DatabaseFailure>,
    ) -> (result: Result<Vault, Error>)
        ensures
            match parsed {
                Ok((nodes, icons)) => result matches Ok(vault) && vault.path == path
                    && vault.nodes == nodes && vault.custom_icons == icons,
                Err(DatabaseFailure::IncorrectKey) => result matches Err(e) && e.kind
                    == ErrorKind::InvalidPassword,
                Err(DatabaseFailure::Unreadable) => result matches Err(e) && e.kind
                    == ErrorKind::CorruptContainer,
            },
    {
        match parsed {
            Ok((nodes, custom_icons)) => Ok(Vault { path, nodes, custom_icons }),
            Err(DatabaseFailure::IncorrectKey) => Err(Error::new(ErrorKind::InvalidPassword)),
            Err(DatabaseFailure::Unreadable) => Err(Error::new(ErrorKind::CorruptContainer)),
        }
    }

    /// The place of the last custom icon with the id `id`.
    pub fn icon_index(&self, id: u128) -> (slot: Option<usize>)
        ensures
            slot == icon_slot(icon_views(self.custom_icons@), id),
    {
        let ghost icons = icon_views(self.custom_icons@);
        let mut count = self.custom_icons.len();
        assert(icons.take(count as int) =~= icons);
        while count > 0
            invariant
                count <= self.custom_icons@.len(),
                icons == icon_views(self.custom_icons@),
                icon_slot(icons, id) == icon_slot(icons.take(count as int), id),
            decreases count,
        {
            if self.custom_icons[count - 1].id == id {
                return Some(count - 1);
            }
            assert(icons.take(count as int).drop_last() =~= icons.take(count - 1));
            count -= 1;
        }
        None
    }

    /// What the node at `index` gives: its secret, under the title of the entry or,
    /// where it has none, under `entry:` and the index, or why it gives none.
    pub fn secret_at(&self, index: usize) -> (outcome: Result<VaultSecret, Skipped>)
        requires
            index < self.nodes@.len(),
        ensures
            skipped_view(outcome) == node_outcome(
                node_views(self.nodes@)[index as int],
                index as nat,
                icon_views(self.custom_icons@),
            ),
            outcome matches Ok(secret) ==> secret.well_formed(),
    {
        match &self.nodes[index] {
            Node::Group => Err(Skipped::Group),
            Node::Entry(record) => match &record.url {
                None => Err(Skipped::NoAddress),
                Some(url) => match ParsedUrl::parse(url.as_str()) {
                    Err(e) => Err(Skipped::NoCredential(e)),
                    Ok(parsed_url) => {
                        let name = match &record.title {
                            Some(title) => title.clone(),
                            None => {
                                let mut name = "entry:".to_owned();
                                name.append(render_decimal(index as u64).as_str());
                                name
                            },
                        };
                        let icon = match record.icon {
                            Some(id) => self.icon_index(id),
                            None => None,
                        };
                        Ok(VaultSecret { name, parsed_url, icon })
                    },
                },
            },
        }
    }

    /// What every node of the database gives, in the order of the tree: its secret,
    /// or why it gives none.
    pub fn outcomes(&self) -> (outcomes: Vec<Result<VaultSecret, Skipped>>)
        ensures
            outcomes@.len() == self.nodes@.len(),
            forall|i: int|
                0 <= i < outcomes@.len() ==> skipped_view(#[trigger] outcomes@[i])
                    == node_outcome(
                    node_views(self.nodes@)[i],
                    i as nat,
                    icon_views(self.custom_icons@),
                ),
            forall|i: int|
                0 <= i < outcomes@.len() ==> ((#[trigger] outcomes@[i]) matches Ok(secret)
                    ==> secret.well_formed()),
    {
        let mut outcomes: Vec<Result<VaultSecret, Skipped>> = Vec::new();
        let mut index: usize = 0;
        while index < self.nodes.len()
            invariant
                index <= self.nodes@.len(),
                outcomes@.len() == index,
                forall|i: int|
                    0 <= i < outcomes@.len() ==> skipped_view(#[trigger] outcomes@[i])
                        == node_outcome(
                        node_views(self.nodes@)[i],
                        i as nat,
                        icon_views(self.custom_icons@),
                    ),
                forall|i: int|
                    0 <= i < outcomes@.len() ==> ((#[trigger] outcomes@[i]) matches Ok(secret)
                        ==> secret.well_formed()),
            decreases self.nodes@.len() - index,
        {
            outcomes.push(self.secret_at(index));
            index += 1;
        }
        outcomes
    }

    /// The credentials of the database: one for every entry whose address is an
    /// `otpauth` address, in the order of the tree, under the title of the entry. An
    /// entry without an address, or with another kind of address, is left out;
    /// [`Vault::outcomes`] says which and why.
    pub fn secrets(&self) -> (secrets: Vec<VaultSecret>)
        ensures
            secret_views(secrets@) == secrets_of(
                node_views(self.nodes@),
                self.nodes@.len(),
                icon_views(self.custom_icons@),
            ),
            forall|i: int| 0 <= i < secrets@.len() ==> (#[trigger] secrets@[i]).well_formed(),
    {
        let ghost nodes = node_views(self.nodes@);
        let ghost icons = icon_views(self.custom_icons@);
        let mut secrets: Vec<VaultSecret> = Vec::new();
        let mut index: usize = 0;
        assert(secret_views(secrets@) =~= secrets_of(nodes, 0, icons));
        while index < self.nodes.len()
            invariant
                index <= self.nodes@.len(),
                nodes == node_views(self.nodes@),
                icons == icon_views(self.custom_icons@),
                secret_views(secrets@) == secrets_of(nodes, index as nat, icons),
                forall|i: int| 0 <= i < secrets@.len() ==> (#[trigger] secrets@[i]).well_formed(),
            decreases self.nodes@.len() - index,
        {
            let ghost before = secret_views(secrets@);
            match self.secret_at(index) {
                Ok(secret) => {
                    secrets.push(secret);
                    assert(secret_views(secrets@) =~= before.push(
                        secret_of_node(nodes[index as int], index as nat, icons).unwrap(),
                    ));
                },
                Err(_) => {},
            }
            index += 1;
        }
        secrets
    }
}

/// Where the database stands: none chosen, the path of one that waits for its
/// password, or one that is open.
pub enum Db {
    Empty,
    Path(String),
    Open(Vault),
}

impl Db {
    /// Takes the state out and leaves none.
    pub fn take(&mut self) -> (taken: Self)
        ensures
            taken == *old(self),
            *final(self) == Db::Empty,
    {
        let mut slot = Db::Empty;
        std::mem::swap(self, &mut slot);
        slot
    }
}

} // verus!
