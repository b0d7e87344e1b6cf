//! The `Match` type: a selector identifying which device a state targets.
use vstd::prelude::*;
use crate::text::{ascii_case_insensitive_eq, ascii_lower, eq_ignore_ascii_case};

verus! {

/// Identifies which system device a state targets.
///
/// All fields are optional. Matching is AND over the fields set in `self`
/// and asymmetric: [`Match::matches`] answers "does `self` match `other`".
/// A field set in `self` that is unset in `other` is a mismatch.
#[derive(Clone, Debug)]
pub struct Match {
    /// Interface name, e.g. `"eth0"`.
    pub name: Option<String>,
    /// Device type, e.g. `"ethernet"` (the `type:` sub-key of a `match:` section).
    pub device_type: Option<String>,
    /// Driver name, e.g. `"ixgbe"`.
    pub driver: Option<String>,
    /// PCI path of the device.
    pub pci_path: Option<String>,
    /// MAC address. Compared case-insensitively by [`Match::matches`], but stored verbatim.
    pub mac: Option<String>,
}

/// The mathematical content of a [`Match`]: each field's text, if set.
pub struct MatchView {
    pub name: Option<Seq<char>>,
    pub device_type: Option<Seq<char>>,
    pub driver: Option<Seq<char>>,
    pub pci_path: Option<Seq<char>>,
    pub mac: Option<Seq<char>>,
}

/// The text of an optional string.
pub open spec fn opt_text(o: Option<String>) -> Option<Seq<char>> {
    match o {
        Some(s) => Some(s@),
        None => None,
    }
}

impl View for Match {
    type V = MatchView;

    open spec fn view(&self) -> MatchView {
        MatchView {
            name: opt_text(self.name),
            device_type: opt_text(self.device_type),
            driver: opt_text(self.driver),
            pci_path: opt_text(self.pci_path),
            mac: opt_text(self.mac),
        }
    }
}

/// A selector field matches when it is unset, or set and equal to the other's.
pub open spec fn spec_field_matches(a: Option<Seq<char>>, b: Option<Seq<char>>) -> bool {
    match a {
        None => true,
        Some(x) => b == Some(x),
    }
}

/// The `mac` field matches when unset, or set and an ASCII case-insensitive match.
pub open spec fn spec_mac_matches(a: Option<Seq<char>>, b: Option<Seq<char>>) -> bool {
    match a {
        None => true,
        Some(x) => match b {
            Some(y) => ascii_case_insensitive_eq(x, y),
            None => false,
        },
    }
}

/// Whether selector `a` matches selector `b`.
pub open spec fn spec_matches(a: MatchView, b: MatchView) -> bool {
    &&& spec_field_matches(a.name, b.name)
    &&& spec_field_matches(a.device_type, b.device_type)
    &&& spec_field_matches(a.driver, b.driver)
    &&& spec_field_matches(a.pci_path, b.pci_path)
    &&& spec_mac_matches(a.mac, b.mac)
}

/// Whether no selector field is set.
pub open spec fn spec_is_empty(m: MatchView) -> bool {
    &&& m.name is None
    &&& m.device_type is None
    &&& m.driver is None
    &&& m.pci_path is None
    &&& m.mac is None
}

/// The selector with no field set.
pub open spec fn empty_match_view() -> MatchView {
    MatchView { name: None, device_type: None, driver: None, pci_path: None, mac: None }
}

fn field_matches(self_field: &Option<String>, other_field: &Option<String>) -> (r: bool)
    ensures
        r == spec_field_matches(opt_text(*self_field), opt_text(*other_field)),
{
    match (self_field, other_field) {
        (Some(a), Some(b)) => a.eq(b),
        (Some(_), None) => false,
        (None, _) => true,
    }
}

/// Equality of two optional strings by content.
pub(crate) fn opt_string_eq(a: &Option<String>, b: &Option<String>) -> (r: bool)
    ensures
        r == (opt_text(*a) == opt_text(*b)),
{
    match (a, b) {
        (Some(x), Some(y)) => x.eq(y),
        (None, None) => true,
        _ => false,
    }
}

impl Match {
    /// The selector with no field set (what a match-less document parses to).
    pub fn empty() -> (m: Match)
        ensures
            m@ == empty_match_view(),
    {
        Match { name: None, device_type: None, driver: None, pci_path: None, mac: None }
    }

    /// Whether `self` matches `other`: every field set in `self` must be set
    /// in `other` with equal content; unset fields in `self` match anything.
    /// `mac` compares ASCII case-insensitively.
    pub fn matches(&self, other: &Match) -> (r: bool)
        ensures
            r == spec_matches(self@, other@),
    {
        field_matches(&self.name, &other.name)
            && field_matches(&self.device_type, &other.device_type)
            && field_matches(&self.driver, &other.driver)
            && field_matches(&self.pci_path, &other.pci_path)
            && match (&self.mac, &other.mac) {
            (Some(a), Some(b)) => eq_ignore_ascii_case(a.as_str(), b.as_str()),
            (Some(_), None) => false,
            (None, _) => true,
        }
    }

    /// Whether no field is set.
    pub fn is_empty(&self) -> (r: bool)
        ensures
            r == spec_is_empty(self@),
    {
        self.name.is_none() && self.device_type.is_none() && self.driver.is_none()
            && self.pci_path.is_none() && self.mac.is_none()
    }
}

impl PartialEq for Match {
    fn eq(&self, other: &Match) -> (r: bool) {
        opt_string_eq(&self.name, &other.name) && opt_string_eq(&self.device_type, &other.device_type)
            && opt_string_eq(&self.driver, &other.driver) && opt_string_eq(&self.pci_path, &other.pci_path)
            && opt_string_eq(&self.mac, &other.mac)
    }
}

impl vstd::std_specs::cmp::PartialEqSpecImpl for Match {
    open spec fn obeys_eq_spec() -> bool {
        true
    }

    open spec fn eq_spec(&self, other: &Match) -> bool {
        self@ == other@
    }
}

impl Eq for Match {}

impl Default for Match {
    fn default() -> (m: Match)
        ensures
            m@ == empty_match_view(),
    {
        Match::empty()
    }
}

/// The empty selector matches every selector.
pub proof fn lemma_empty_matches_anything(m: MatchView)
    ensures
        spec_matches(empty_match_view(), m),
{
}

/// A selector with any field set does not match the empty selector.
pub proof fn lemma_set_field_never_matches_empty(m: MatchView)
    requires
        !spec_is_empty(m),
    ensures
        !spec_matches(m, empty_match_view()),
{
}

/// Matching is asymmetric: when `a` matches `b` and `b` sets a field that
/// `a` leaves unset, `b` does not match `a` (a partial selector matches a
/// fuller one, never the reverse).
pub proof fn lemma_partial_match_not_reversed(a: MatchView, b: MatchView)
    requires
        spec_matches(a, b),
        (a.name is None && b.name is Some) || (a.device_type is None && b.device_type is Some)
            || (a.driver is None && b.driver is Some) || (a.pci_path is None && b.pci_path is Some)
            || (a.mac is None && b.mac is Some),
    ensures
        !spec_matches(b, a),
{
}

/// Every selector matches itself.
pub proof fn lemma_matches_reflexive(m: MatchView)
    ensures
        spec_matches(m, m),
{
}

/// Matching is transitive: a selector that matches `b` matches everything `b` matches.
pub proof fn lemma_matches_transitive(a: MatchView, b: MatchView, c: MatchView)
    requires
        spec_matches(a, b),
        spec_matches(b, c),
    ensures
        spec_matches(a, c),
{
    if a.mac is Some {
        let (x, y, z) = (a.mac.unwrap(), b.mac.unwrap(), c.mac.unwrap());
        assert forall|i: int| 0 <= i < x.len() implies #[trigger] ascii_lower(x[i]) == ascii_lower(z[i]) by {
            assert(ascii_lower(x[i]) == ascii_lower(y[i]));
            assert(ascii_lower(y[i]) == ascii_lower(z[i]));
        }
    }
}

/// What matching means: `a` matches `b` exactly when every field `a` sets is
/// set in `b` to the same text, except `mac`, which `b` must set to a text of
/// the same length that equals `a`'s once ASCII letters are lower-cased.
/// Fields `a` leaves unset do not matter.
pub proof fn lemma_matches_meaning(a: MatchView, b: MatchView)
    ensures
        spec_matches(a, b) <==> {
            &&& a.name is Some ==> b.name == a.name
            &&& a.device_type is Some ==> b.device_type == a.device_type
            &&& a.driver is Some ==> b.driver == a.driver
            &&& a.pci_path is Some ==> b.pci_path == a.pci_path
            &&& a.mac is Some ==> {
                &&& b.mac is Some
                &&& a.mac->0.len() == b.mac->0.len()
                &&& forall|i: int| 0 <= i < a.mac->0.len() ==> ascii_lower(a.mac->0[i]) == ascii_lower(b.mac->0[i])
            }
        },
{
}

/// A selector that sets a field other than `mac` to one text does not match
/// a selector that sets it to another.
pub proof fn lemma_different_texts_never_match(a: MatchView, b: MatchView)
    requires
        (a.name is Some && b.name is Some && a.name != b.name)
            || (a.device_type is Some && b.device_type is Some && a.device_type != b.device_type)
            || (a.driver is Some && b.driver is Some && a.driver != b.driver)
            || (a.pci_path is Some && b.pci_path is Some && a.pci_path != b.pci_path),
    ensures
        !spec_matches(a, b),
{
}

/// A selector is empty exactly when it sets no field at all, `mac` included.
pub proof fn lemma_empty_means_no_field_set(m: MatchView)
    ensures
        spec_is_empty(m) <==> m == (MatchView { name: None, device_type: None, driver: None, pci_path: None, mac: None }),
{
}

} // verus!
