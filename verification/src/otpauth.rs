//! `otpauth://` addresses, as authenticator QR codes hold them.
//!
//! The address is split by the `url` crate, its label is percent-decoded by
//! `urlencoding`, and its query is cut into pairs by `form_urlencoded`. What these
//! return has a name here and no definition. Everything that is decided on their
//! results is verified, and can be called on the results directly.

use crate::base32::{b32decode, decoded};
use crate::text::{chars_of, decimal, parse_decimal, same_text, text_of};
use url::form_urlencoded;
use url::Host;
use url::Url;
use vstd::prelude::*;

verus! {

/// The number of digits of a code, where the address gives none.
pub const DEFAULT_DIGITS: usize = 6;

/// The length of a time window in seconds, where the address gives none.
pub const DEFAULT_PERIOD: u64 = 30;

/// Why an address is no credential.
#[derive(Debug, Copy, Clone, PartialEq, Eq)]
pub enum ParseError {
    /// The text is no address, its label cannot be decoded, or a number in its query
    /// is malformed.
    InvalidUrl,
    /// The scheme is not `otpauth`.
    InvalidScheme,
    /// The host is not `totp`.
    InvalidDomain,
    /// The secret is missing or is no base32.
    IncompleteQuery,
    /// Neither the query nor the label names an issuer.
    NoIssuer,
}

/// A credential, as an address describes it: the label as a whole and what stands
/// after the issuer in it, the issuer, the secret as bytes, the length of a time
/// window in seconds, the number of digits, and the address itself.
#[derive(Debug, Clone)]
pub struct ParsedUrl {
    pub label: String,
    pub account_name: String,
    pub issuer: String,
    pub secret: Vec<u8>,
    pub period: u64,
    pub digits: usize,
    pub raw: String,
}

/// What a [`ParsedUrl`] holds.
pub struct Credential {
    pub label: Seq<char>,
    pub account_name: Seq<char>,
    pub issuer: Seq<char>,
    pub secret: Seq<u8>,
    pub period: u64,
    pub digits: usize,
    pub raw: Seq<char>,
}

impl View for ParsedUrl {
    type V = Credential;

    open spec fn view(&self) -> Credential {
        Credential {
            label: self.label@,
            account_name: self.account_name@,
            issuer: self.issuer@,
            secret: self.secret@,
            period: self.period,
            digits: self.digits,
            raw: self.raw@,
        }
    }
}

/// The parts of an address that the parser reads. `domain` is the host where it is
/// a name, and `None` where the address has no host or an IP address.
pub struct UrlParts {
    pub scheme: String,
    pub domain: Option<String>,
    pub path: String,
    pub query: Option<String>,
}

/// What a [`UrlParts`] holds.
pub struct UrlPartsView {
    pub scheme: Seq<char>,
    pub domain: Option<Seq<char>>,
    pub path: Seq<char>,
    pub query: Option<Seq<char>>,
}

impl View for UrlParts {
    type V = UrlPartsView;

    open spec fn view(&self) -> UrlPartsView {
        UrlPartsView {
            scheme: self.scheme@,
            domain: match self.domain {
                Some(name) => Some(name@),
                None => None,
            },
            path: self.path@,
            query: match self.query {
                Some(query) => Some(query@),
                None => None,
            },
        }
    }
}

/// The parts of `text` read as an absolute address by `url`, or `None` where it
/// refuses the text.
pub uninterp spec fn url_parts(text: Seq<char>) -> Option<UrlPartsView>;

/// `text` with its percent escapes replaced as `urlencoding` replaces them, or `None`
/// where the outcome is no UTF-8.
pub uninterp spec fn percent_decoded(text: Seq<char>) -> Option<Seq<char>>;

/// The names and values that `form_urlencoded` reads in a query, in their order.
pub uninterp spec fn form_pairs(query: Seq<char>) -> Seq<(Seq<char>, Seq<char>)>;

/// The names and values of a list of pairs.
pub open spec fn pair_views(pairs: Seq<(String, String)>) -> Seq<(Seq<char>, Seq<char>)> {
    Seq::new(pairs.len(), |i: int| (pairs[i].0@, pairs[i].1@))
}

/// Trusted: `Url::parse` of `url` either refuses the text or gives an address, whose
/// `scheme`, `host`, `path` and `query` are copied out here. A host that is an IP
/// address is given as no domain.
#[verifier::external_body]
fn split_url(text: &str) -> (parts: Option<UrlParts>)
    ensures
        parts matches Some(p) ==> url_parts(text@) == Some(p@),
        parts is None ==> url_parts(text@) is None,
{
    let url = Url::parse(text).ok()?;
    let domain = match url.host() {
        Some(Host::Domain(name)) => Some(name.to_string()),
        Some(Host::Ipv4(_)) => None,
        Some(Host::Ipv6(_)) => None,
        None => None,
    };
    let scheme = url.scheme().to_string();
    let path = url.path().to_string();
    let query = url.query().map(|query| query.to_string());
    Some(UrlParts { scheme, domain, path, query })
}

/// Trusted: `urlencoding::decode` gives the text with its escapes replaced, or fails
/// where the bytes it arrives at are no UTF-8.
#[verifier::external_body]
fn percent_decode(text: &str) -> (out: Option<String>)
    ensures
        out matches Some(s) ==> percent_decoded(text@) == Some(s@),
        out is None ==> percent_decoded(text@) is None,
{
    match urlencoding::decode(text) {
        Ok(decoded) => Some(decoded.into_owned()),
        Err(_) => None,
    }
}

/// Trusted: `form_urlencoded::parse` walks the query and gives its names and values,
/// decoded, in their order.
#[verifier::external_body]
fn split_query(query: &str) -> (pairs: Vec<(String, String)>)
    ensures
        pair_views(pairs@) == form_pairs(query@),
{
    form_urlencoded::parse(query.as_bytes()).into_owned().collect()
}

/// `path` without the slashes it starts with.
pub open spec fn without_leading_slashes(path: Seq<char>) -> Seq<char>
    decreases path.len(),
{
    if path.len() > 0 && path[0] == '/' {
        without_leading_slashes(path.drop_first())
    } else {
        path
    }
}

/// `at` is where the first `:` of `label` stands.
pub open spec fn first_colon(label: Seq<char>, at: int) -> bool {
    &&& 0 <= at < label.len()
    &&& label[at] == ':'
    &&& forall|i: int| 0 <= i < at ==> label[i] != ':'
}

/// The issuer that a label names, if any, and the account: what stands before and
/// after its first `:`.
pub open spec fn split_label(label: Seq<char>) -> (Option<Seq<char>>, Seq<char>) {
    if exists|at: int| first_colon(label, at) {
        let at = choose|at: int| first_colon(label, at);
        (Some(label.take(at)), label.skip(at + 1))
    } else {
        (None, label)
    }
}

/// What has been read of a credential's fields so far.
pub struct Fields {
    pub issuer: Option<Seq<char>>,
    pub secret: Option<Seq<u8>>,
    pub digits: usize,
    pub period: u64,
}

/// The fields after one pair of the query. The secret is base32; the digits and the
/// period are decimal numbers above zero. A pair with another name changes nothing.
pub open spec fn with_pair(fields: Fields, name: Seq<char>, value: Seq<char>) -> Result<
    Fields,
    ParseError,
> {
    if name == "secret"@ {
        match decoded(vstd::utf8::encode_utf8(value)) {
            Ok(secret) => Ok(Fields { secret: Some(secret), ..fields }),
            Err(_) => Err(ParseError::IncompleteQuery),
        }
    } else if name == "issuer"@ {
        Ok(Fields { issuer: Some(value), ..fields })
    } else if name == "digits"@ {
        match decimal(value, usize::MAX as nat) {
            Some(digits) if digits > 0 => Ok(Fields { digits: digits as usize, ..fields }),
            _ => Err(ParseError::InvalidUrl),
        }
    } else if name == "period"@ {
        match decimal(value, u64::MAX as nat) {
            Some(period) if period > 0 => Ok(Fields { period: period as u64, ..fields }),
            _ => Err(ParseError::InvalidUrl),
        }
    } else {
        Ok(fields)
    }
}

/// The fields after all pairs, taken in their order: a later pair overrides an
/// earlier one, and the first pair that fails is the error.
pub open spec fn with_pairs(fields: Fields, pairs: Seq<(Seq<char>, Seq<char>)>) -> Result<
    Fields,
    ParseError,
>
    decreases pairs.len(),
{
    if pairs.len() == 0 {
        Ok(fields)
    } else {
        match with_pair(fields, pairs[0].0, pairs[0].1) {
            Ok(next) => with_pairs(next, pairs.drop_first()),
            Err(e) => Err(e),
        }
    }
}

/// A credential names its issuer, has a secret, and has digits and a period above
/// zero.
pub open spec fn well_formed(credential: Credential) -> bool {
    &&& credential.issuer.len() > 0
    &&& credential.secret.len() > 0
    &&& credential.digits > 0
    &&& credential.period > 0
}

/// The credential of a decoded label and the pairs of a query. The issuer is the
/// one that the query names, else the one of the label; an empty issuer is none, and
/// an empty secret is none.
pub open spec fn credential(
    label: Seq<char>,
    pairs: Seq<(Seq<char>, Seq<char>)>,
    raw: Seq<char>,
) -> Result<Credential, ParseError> {
    let start = Fields {
        issuer: split_label(label).0,
        secret: None,
        digits: DEFAULT_DIGITS,
        period: DEFAULT_PERIOD,
    };
    match with_pairs(start, pairs) {
        Err(e) => Err(e),
        Ok(fields) => if fields.issuer is None || fields.issuer.unwrap().len() == 0 {
            Err(ParseError::NoIssuer)
        } else if fields.secret is None || fields.secret.unwrap().len() == 0 {
            Err(ParseError::IncompleteQuery)
        } else {
            Ok(
                Credential {
                    label,
                    account_name: split_label(label).1,
                    issuer: fields.issuer.unwrap(),
                    secret: fields.secret.unwrap(),
                    period: fields.period,
                    digits: fields.digits,
                    raw,
                },
            )
        },
    }
}

/// The credential of the parts of an address. An address without a query has no
/// pairs.
pub open spec fn credential_of_parts(parts: UrlPartsView, raw: Seq<char>) -> Result<
    Credential,
    ParseError,
> {
    if parts.scheme != "otpauth"@ {
        Err(ParseError::InvalidScheme)
    } else if parts.domain != Some("totp"@) {
        Err(ParseError::InvalidDomain)
    } else {
        match percent_decoded(without_leading_slashes(parts.path)) {
            None => Err(ParseError::InvalidUrl),
            Some(label) => credential(
                label,
                match parts.query {
                    Some(query) => form_pairs(query),
                    None => Seq::empty(),
                },
                raw,
            ),
        }
    }
}

/// The credential of an address.
pub open spec fn parsed(text: Seq<char>) -> Result<Credential, ParseError> {
    match url_parts(text) {
        None => Err(ParseError::InvalidUrl),
        Some(parts) => credential_of_parts(parts, text),
    }
}

/// `result` is `expected`, the credential taken by its view.
pub open spec fn matches_credential(
    result: Result<ParsedUrl, ParseError>,
    expected: Result<Credential, ParseError>,
) -> bool {
    match result {
        Ok(url) => expected == Ok::<Credential, ParseError>(url@),
        Err(e) => expected == Err::<Credential, ParseError>(e),
    }
}

/// Leading slashes go one by one.
proof fn lemma_leading_slashes(path: Seq<char>, k: int)
    requires
        0 <= k <= path.len(),
        forall|i: int| 0 <= i < k ==> path[i] == '/',
        k < path.len() ==> path[k] != '/',
    ensures
        without_leading_slashes(path) == path.skip(k),
    decreases k,
{
    if k == 0 {
        assert(path.skip(0) =~= path);
    } else {
        lemma_leading_slashes(path.drop_first(), k - 1);
        assert(path.drop_first().skip(k - 1) =~= path.skip(k));
    }
}

/// A label has at most one first `:`.
proof fn lemma_first_colon_unique(label: Seq<char>, a: int, b: int)
    requires
        first_colon(label, a),
        first_colon(label, b),
    ensures
        a == b,
{
}

/// Pairs leave digits and a period above zero as they are or put others above zero
/// in their place.
proof fn lemma_fields_positive(fields: Fields, pairs: Seq<(Seq<char>, Seq<char>)>)
    requires
        fields.digits > 0,
        fields.period > 0,
    ensures
        with_pairs(fields, pairs) matches Ok(last) ==> last.digits > 0 && last.period > 0,
    decreases pairs.len(),
{
    if pairs.len() > 0 {
        match with_pair(fields, pairs[0].0, pairs[0].1) {
            Ok(next) => {
                lemma_fields_positive(next, pairs.drop_first());
            },
            Err(_) => {},
        }
    }
}

/// Every credential that an address gives names its issuer, has a secret, and has
/// digits and a period above zero.
pub proof fn lemma_parsed_well_formed(text: Seq<char>)
    ensures
        parsed(text) matches Ok(credential) ==> well_formed(credential),
{
    match url_parts(text) {
        Some(parts) => {
            match percent_decoded(without_leading_slashes(parts.path)) {
                Some(label) => {
                    let pairs = match parts.query {
                        Some(query) => form_pairs(query),
                        None => Seq::empty(),
                    };
                    let start = Fields {
                        issuer: split_label(label).0,
                        secret: None,
                        digits: DEFAULT_DIGITS,
                        period: DEFAULT_PERIOD,
                    };
                    lemma_fields_positive(start, pairs);
                },
                None => {},
            }
        },
        None => {},
    }
}

/// The fields while a query is read.
struct Reading {
    issuer: Option<String>,
    secret: Option<Vec<u8>>,
    digits: usize,
    period: u64,
}

impl View for Reading {
    type V = Fields;

    closed spec fn view(&self) -> Fields {
        Fields {
            issuer: match self.issuer {
                Some(issuer) => Some(issuer@),
                None => None,
            },
            secret: match self.secret {
                Some(secret) => Some(secret@),
                None => None,
            },
            digits: self.digits,
            period: self.period,
        }
    }
}

/// Takes one pair of the query into the fields.
fn read_pair(fields: Reading, name: &str, value: &str) -> (result: Result<Reading, ParseError>)
    ensures
        result matches Ok(next) ==> with_pair(fields@, name@, value@) == Ok::<Fields, ParseError>(
            next@,
        ),
        result matches Err(e) ==> with_pair(fields@, name@, value@) == Err::<Fields, ParseError>(
            e,
        ),
{
    if same_text(name, "secret") {
        match b32decode(value.as_bytes()) {
            Ok(secret) => Ok(Reading { secret: Some(secret), ..fields }),
            Err(_) => Err(ParseError::IncompleteQuery),
        }
    } else if same_text(name, "issuer") {
        Ok(Reading { issuer: Some(value.to_owned()), ..fields })
    } else if same_text(name, "digits") {
        match parse_decimal(value, usize::MAX as u64) {
            Some(digits) => if digits > 0 {
                Ok(Reading { digits: digits as usize, ..fields })
            } else {
                Err(ParseError::InvalidUrl)
            },
            None => Err(ParseError::InvalidUrl),
        }
    } else if same_text(name, "period") {
        match parse_decimal(value, u64::MAX) {
            Some(period) => if period > 0 {
                Ok(Reading { period, ..fields })
            } else {
                Err(ParseError::InvalidUrl)
            },
            None => Err(ParseError::InvalidUrl),
        }
    } else {
        Ok(fields)
    }
}

impl ParsedUrl {
    /// The credential of a decoded label and the pairs of a query, with `raw` kept
    /// as the address they came from.
    ///
    /// The label names the issuer before its first `:`, unless the query does. Of
    /// the pairs, `secret`, `issuer`, `digits` and `period` are read, and a later one
    /// overrides an earlier one.
    pub fn from_label(label: &str, pairs: &Vec<(String, String)>, raw: &str) -> (result: Result<
        ParsedUrl,
        ParseError,
    >)
        ensures
            matches_credential(result, credential(label@, pair_views(pairs@), raw@)),
            result matches Ok(url) ==> well_formed(url@),
    {
        let chars = chars_of(label);
        let mut at: usize = 0;
        while at < chars.len() && chars[at] != ':'
            invariant
                at <= chars@.len(),
                forall|i: int| 0 <= i < at ==> chars@[i] != ':',
            decreases chars@.len() - at,
        {
            at += 1;
        }
        let (candidate, account_name) = if at < chars.len() {
            proof {
                assert(first_colon(label@, at as int));
                lemma_first_colon_unique(
                    label@,
                    at as int,
                    choose|at: int| first_colon(label@, at),
                );
            }
            (Some(text_of(&chars, 0, at)), text_of(&chars, at + 1, chars.len()))
        } else {
            (None, label.to_owned())
        };
        assert(split_label(label@) == (
            match candidate {
                Some(issuer) => Some(issuer@),
                None => None,
            },
            account_name@,
        ));
        let mut fields = Reading {
            issuer: candidate,
            secret: None,
            digits: DEFAULT_DIGITS,
            period: DEFAULT_PERIOD,
        };
        let ghost start = fields@;
        let ghost all = pair_views(pairs@);
        let mut i: usize = 0;
        assert(all.skip(0) =~= all);
        while i < pairs.len()
            invariant
                i <= pairs@.len(),
                all == pair_views(pairs@),
                split_label(label@).1 == account_name@,
                start == (Fields {
                    issuer: split_label(label@).0,
                    secret: None,
                    digits: DEFAULT_DIGITS,
                    period: DEFAULT_PERIOD,
                }),
                with_pairs(start, all) == with_pairs(fields@, all.skip(i as int)),
            decreases pairs@.len() - i,
        {
            let ghost before = fields@;
            assert(all.skip(i as int).drop_first() =~= all.skip(i + 1));
            assert(all.skip(i as int)[0] == (pairs@[i as int].0@, pairs@[i as int].1@));
            match read_pair(fields, pairs[i].0.as_str(), pairs[i].1.as_str()) {
                Ok(next) => {
                    fields = next;
                },
                Err(e) => {
                    return Err(e);
                },
            }
            i += 1;
        }
        assert(all.skip(i as int).len() == 0);
        let issuer = match fields.issuer {
            Some(issuer) => issuer,
            None => {
                return Err(ParseError::NoIssuer);
            },
        };
        if issuer.as_str().is_empty() {
            return Err(ParseError::NoIssuer);
        }
        let secret = match fields.secret {
            Some(secret) => secret,
            None => {
                return Err(ParseError::IncompleteQuery);
            },
        };
        if secret.len() == 0 {
            return Err(ParseError::IncompleteQuery);
        }
        proof {
            lemma_fields_positive(start, all);
        }
        Ok(
            ParsedUrl {
                label: label.to_owned(),
                account_name,
                issuer,
                secret,
                period: fields.period,
                digits: fields.digits,
                raw: raw.to_owned(),
            },
        )
    }

    /// The credential of the parts of an address: the scheme must be `otpauth` and
    /// the host `totp`; the path without its leading slashes, percent-decoded, is
    /// the label.
    pub fn from_parts(parts: &UrlParts, raw: &str) -> (result: Result<ParsedUrl, ParseError>)
        ensures
            matches_credential(result, credential_of_parts(parts@, raw@)),
            result matches Ok(url) ==> well_formed(url@),
    {
        if !same_text(parts.scheme.as_str(), "otpauth") {
            return Err(ParseError::InvalidScheme);
        }
        let is_totp = match &parts.domain {
            Some(name) => same_text(name.as_str(), "totp"),
            None => false,
        };
        if !is_totp {
            return Err(ParseError::InvalidDomain);
        }
        let path = chars_of(parts.path.as_str());
        let mut slashes: usize = 0;
        while slashes < path.len() && path[slashes] == '/'
            invariant
                slashes <= path@.len(),
                forall|i: int| 0 <= i < slashes ==> path@[i] == '/',
            decreases path@.len() - slashes,
        {
            slashes += 1;
        }
        proof {
            lemma_leading_slashes(path@, slashes as int);
        }
        let encoded_label = text_of(&path, slashes, path.len());
        let label = match percent_decode(encoded_label.as_str()) {
            Some(label) => label,
            None => {
                return Err(ParseError::InvalidUrl);
            },
        };
        let pairs = match &parts.query {
            Some(query) => split_query(query.as_str()),
            None => Vec::new(),
        };
        assert(parts.query is None ==> pair_views(pairs@) =~= Seq::empty());
        ParsedUrl::from_label(label.as_str(), &pairs, raw)
    }

    /// Reads an `otpauth://totp/` address.
    pub fn parse(path: &str) -> (result: Result<ParsedUrl, ParseError>)
        ensures
            matches_credential(result, parsed(path@)),
            result matches Ok(url) ==> well_formed(url@),
    {
        match split_url(path) {
            None => Err(ParseError::InvalidUrl),
            Some(parts) => ParsedUrl::from_parts(&parts, path),
        }
    }
}

} // verus!
