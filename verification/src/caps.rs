//! Filesystem capabilities (`Cap`) and opt-in system capabilities
//! (`SystemCap`), each a small set of flags held in the bits of a `u8`.
use vstd::prelude::*;

use crate::text::{join_strs, joined, push_char, str_eq, str_views};

verus! {

/// Whether bit `i` of `x` is set.
pub open spec fn bit(x: u8, i: u8) -> bool {
    (x >> i) & 1u8 == 1u8
}

/// The bits of `x` are exactly those of `y`.
pub proof fn lemma_bits_determine(x: u8, y: u8)
    requires
        forall|i: u8| i < 8 ==> bit(x, i) == bit(y, i),
    ensures
        x == y,
{
    assert(bit(x, 0) == bit(y, 0));
    assert(bit(x, 1) == bit(y, 1));
    assert(bit(x, 2) == bit(y, 2));
    assert(bit(x, 3) == bit(y, 3));
    assert(bit(x, 4) == bit(y, 4));
    assert(bit(x, 5) == bit(y, 5));
    assert(bit(x, 6) == bit(y, 6));
    assert(bit(x, 7) == bit(y, 7));
    assert(x == y) by (bit_vector)
        requires
            ((x >> 0u8) & 1u8 == 1u8) == ((y >> 0u8) & 1u8 == 1u8),
            ((x >> 1u8) & 1u8 == 1u8) == ((y >> 1u8) & 1u8 == 1u8),
            ((x >> 2u8) & 1u8 == 1u8) == ((y >> 2u8) & 1u8 == 1u8),
            ((x >> 3u8) & 1u8 == 1u8) == ((y >> 3u8) & 1u8 == 1u8),
            ((x >> 4u8) & 1u8 == 1u8) == ((y >> 4u8) & 1u8 == 1u8),
            ((x >> 5u8) & 1u8 == 1u8) == ((y >> 5u8) & 1u8 == 1u8),
            ((x >> 6u8) & 1u8 == 1u8) == ((y >> 6u8) & 1u8 == 1u8),
            ((x >> 7u8) & 1u8 == 1u8) == ((y >> 7u8) & 1u8 == 1u8),
    ;
}

/// Bitwise operations on `u8` seen one bit at a time.
pub proof fn lemma_bit_ops(x: u8, y: u8, i: u8)
    requires
        i < 8,
    ensures
        bit(x | y, i) == (bit(x, i) || bit(y, i)),
        bit(x & y, i) == (bit(x, i) && bit(y, i)),
        bit(x & !y, i) == (bit(x, i) && !bit(y, i)),
        bit(!x, i) == !bit(x, i),
        bit(0u8, i) == false,
        (x & y == y) == (forall|j: u8| j < 8 ==> (bit(y, j) ==> bit(x, j))),
{
    assert(bit(x | y, i) == (bit(x, i) || bit(y, i))) by (bit_vector)
        requires
            i < 8,
    ;
    assert(bit(x & y, i) == (bit(x, i) && bit(y, i))) by (bit_vector)
        requires
            i < 8,
    ;
    assert(bit(x & !y, i) == (bit(x, i) && !bit(y, i))) by (bit_vector)
        requires
            i < 8,
    ;
    assert(bit(!x, i) == !bit(x, i)) by (bit_vector)
        requires
            i < 8,
    ;
    assert(bit(0u8, i) == false) by (bit_vector)
        requires
            i < 8,
    ;
    lemma_subset_bits(x, y);
}

/// `y` is a subset of `x` exactly when every bit of `y` is a bit of `x`.
pub proof fn lemma_subset_bits(x: u8, y: u8)
    ensures
        (x & y == y) == (forall|j: u8| j < 8 ==> (bit(y, j) ==> bit(x, j))),
{
    if x & y == y {
        assert forall|j: u8| j < 8 && bit(y, j) implies bit(x, j) by {
            assert(x & y == y && j < 8 ==> (bit(y, j) ==> bit(x, j))) by (bit_vector);
        }
    }
    if forall|j: u8| j < 8 ==> (bit(y, j) ==> bit(x, j)) {
        assert forall|j: u8| j < 8 implies bit(x & y, j) == bit(y, j) by {
            assert(j < 8 ==> bit(x & y, j) == (bit(x, j) && bit(y, j))) by (bit_vector);
        }
        lemma_bits_determine(x & y, y);
    }
}

/// High-level filesystem capabilities.
///
/// Each platform backend maps these to its own enforcement primitives:
/// Landlock access rights on Linux, Seatbelt operations on macOS.
#[derive(Debug, Clone, Copy, PartialEq, Eq, Structural, Hash)]
pub struct Cap {
    /// The raw flag bits; bits beyond the five known capabilities are kept as given.
    pub bits: u8,
}

/// The bit that stands for read access.
pub const READ_BIT: u8 = 1u8;
/// The bit that stands for write access.
pub const WRITE_BIT: u8 = 2u8;
/// The bit that stands for create access.
pub const CREATE_BIT: u8 = 4u8;
/// The bit that stands for delete access.
pub const DELETE_BIT: u8 = 8u8;
/// The bit that stands for execute access.
pub const EXECUTE_BIT: u8 = 16u8;
/// All five filesystem capability bits.
pub const ALL_CAP_BITS: u8 = 31u8;

impl View for Cap {
    type V = u8;

    open spec fn view(&self) -> u8 {
        self.bits
    }
}

#[allow(non_snake_case)]
impl Cap {
    /// A capability set holding exactly `bits`, known or not.
    pub fn from_bits_retain(bits: u8) -> (r: Cap)
        ensures
            r@ == bits,
    {
        Cap { bits }
    }

    /// The raw bits of this set.
    pub fn bits(&self) -> (r: u8)
        ensures
            r == self@,
    {
        self.bits
    }

    /// Read files and list directories.
    pub fn READ() -> (r: Cap)
        ensures
            r@ == READ_BIT,
    {
        Cap { bits: READ_BIT }
    }

    /// Write/modify existing files (includes truncate).
    pub fn WRITE() -> (r: Cap)
        ensures
            r@ == WRITE_BIT,
    {
        Cap { bits: WRITE_BIT }
    }

    /// Create new files, directories, symlinks, etc.
    pub fn CREATE() -> (r: Cap)
        ensures
            r@ == CREATE_BIT,
    {
        Cap { bits: CREATE_BIT }
    }

    /// Delete (unlink) files or remove directories.
    pub fn DELETE() -> (r: Cap)
        ensures
            r@ == DELETE_BIT,
    {
        Cap { bits: DELETE_BIT }
    }

    /// Execute files as programs.
    pub fn EXECUTE() -> (r: Cap)
        ensures
            r@ == EXECUTE_BIT,
    {
        Cap { bits: EXECUTE_BIT }
    }

    /// The empty set.
    pub fn empty() -> (r: Cap)
        ensures
            r@ == 0,
    {
        Cap { bits: 0 }
    }

    /// Every known capability.
    pub fn all() -> (r: Cap)
        ensures
            r@ == ALL_CAP_BITS,
    {
        Cap { bits: ALL_CAP_BITS }
    }

    pub open spec fn spec_contains(&self, other: Cap) -> bool {
        self@ & other@ == other@
    }

    /// Whether every capability of `other` is in `self`.
    #[verifier::when_used_as_spec(spec_contains)]
    pub fn contains(&self, other: Cap) -> (r: bool)
        ensures
            r == self.spec_contains(other),
    {
        self.bits & other.bits == other.bits
    }

    pub open spec fn spec_is_empty(&self) -> bool {
        self@ == 0
    }

    /// Whether no bit is set.
    #[verifier::when_used_as_spec(spec_is_empty)]
    pub fn is_empty(&self) -> (r: bool)
        ensures
            r == self.spec_is_empty(),
    {
        self.bits == 0
    }

    pub open spec fn spec_union(self, other: Cap) -> Cap {
        Cap { bits: self@ | other@ }
    }

    /// The capabilities in either set.
    #[verifier::when_used_as_spec(spec_union)]
    pub fn union(self, other: Cap) -> (r: Cap)
        ensures
            r == self.spec_union(other),
            r@ == self@ | other@,
    {
        Cap { bits: self.bits | other.bits }
    }

    pub open spec fn spec_intersection(self, other: Cap) -> Cap {
        Cap { bits: self@ & other@ }
    }

    /// The capabilities in both sets.
    #[verifier::when_used_as_spec(spec_intersection)]
    pub fn intersection(self, other: Cap) -> (r: Cap)
        ensures
            r == self.spec_intersection(other),
            r@ == self@ & other@,
    {
        Cap { bits: self.bits & other.bits }
    }

    pub open spec fn spec_complement(self) -> Cap {
        Cap { bits: !self@ & ALL_CAP_BITS }
    }

    /// The known capabilities that are not in `self`.
    #[verifier::when_used_as_spec(spec_complement)]
    pub fn complement(self) -> (r: Cap)
        ensures
            r == self.spec_complement(),
            r@ == !self@ & ALL_CAP_BITS,
    {
        Cap { bits: !self.bits & ALL_CAP_BITS }
    }
}


/// The names of the capabilities set in `bits`, in the order
/// read, write, create, delete, execute.
pub open spec fn cap_names(bits: u8) -> Seq<Seq<char>> {
    (if bits & READ_BIT == READ_BIT { seq!["read"@] } else { Seq::empty() })
        + (if bits & WRITE_BIT == WRITE_BIT { seq!["write"@] } else { Seq::empty() })
        + (if bits & CREATE_BIT == CREATE_BIT { seq!["create"@] } else { Seq::empty() })
        + (if bits & DELETE_BIT == DELETE_BIT { seq!["delete"@] } else { Seq::empty() })
        + (if bits & EXECUTE_BIT == EXECUTE_BIT { seq!["execute"@] } else { Seq::empty() })
}

/// The capability bits a single name stands for, if it is a known name.
pub open spec fn cap_for_name(name: Seq<char>) -> Option<u8> {
    if name == "read"@ {
        Some(READ_BIT)
    } else if name == "write"@ {
        Some(WRITE_BIT)
    } else if name == "create"@ {
        Some(CREATE_BIT)
    } else if name == "delete"@ {
        Some(DELETE_BIT)
    } else if name == "execute"@ {
        Some(EXECUTE_BIT)
    } else if name == "full"@ || name == "all"@ {
        Some(ALL_CAP_BITS)
    } else {
        None
    }
}

/// The error message for a name that is not a capability.
pub open spec fn unknown_cap_message(name: Seq<char>) -> Seq<char> {
    "unknown capability: '"@ + name + "'"@
}

/// The compact `rwcdx` form of `bits`: each position is the capability's
/// letter when set and `-` when absent.
pub open spec fn cap_short(bits: u8) -> Seq<char> {
    seq![
        if bits & READ_BIT == READ_BIT { 'r' } else { '-' },
        if bits & WRITE_BIT == WRITE_BIT { 'w' } else { '-' },
        if bits & CREATE_BIT == CREATE_BIT { 'c' } else { '-' },
        if bits & DELETE_BIT == DELETE_BIT { 'd' } else { '-' },
        if bits & EXECUTE_BIT == EXECUTE_BIT { 'x' } else { '-' },
    ]
}

/// The result of reading a list of capability names one after another:
/// the union of what they name, or the error for the first unknown name.
pub open spec fn cap_names_union(names: Seq<Seq<char>>) -> Result<u8, Seq<char>>
    decreases names.len(),
{
    if names.len() == 0 {
        Ok(0u8)
    } else {
        match cap_names_union(names.drop_last()) {
            Err(e) => Err(e),
            Ok(b) => match cap_for_name(names.last()) {
                Some(c) => Ok(b | c),
                None => Err(unknown_cap_message(names.last())),
            },
        }
    }
}

/// The views of a list of strings.
pub open spec fn string_views(list: Seq<String>) -> Seq<Seq<char>> {
    list.map_values(|s: String| s@)
}

/// The message for a capability list that names nothing.
pub open spec fn empty_cap_list_message() -> Seq<char> {
    "capability list must not be empty"@
}

impl Cap {
    /// Return capabilities as a list of name strings.
    pub fn to_list(&self) -> (r: Vec<&'static str>)
        ensures
            str_views(r@) == cap_names(self@),
    {
        let mut names: Vec<&'static str> = Vec::new();
        if self.contains(Cap::READ()) {
            names.push("read");
        }
        if self.contains(Cap::WRITE()) {
            names.push("write");
        }
        if self.contains(Cap::CREATE()) {
            names.push("create");
        }
        if self.contains(Cap::DELETE()) {
            names.push("delete");
        }
        if self.contains(Cap::EXECUTE()) {
            names.push("execute");
        }
        assert(str_views(names@) =~= cap_names(self@));
        names
    }

    /// Parse a single capability name.
    pub fn parse_single(s: &str) -> (r: Result<Cap, String>)
        ensures
            match r {
                Ok(c) => cap_for_name(s@) == Some(c@),
                Err(e) => cap_for_name(s@) is None && e@ == unknown_cap_message(s@),
            },
    {
        if str_eq(s, "read") {
            Ok(Cap::READ())
        } else if str_eq(s, "write") {
            Ok(Cap::WRITE())
        } else if str_eq(s, "create") {
            Ok(Cap::CREATE())
        } else if str_eq(s, "delete") {
            Ok(Cap::DELETE())
        } else if str_eq(s, "execute") {
            Ok(Cap::EXECUTE())
        } else if str_eq(s, "full") || str_eq(s, "all") {
            Ok(Cap::all())
        } else {
            let mut msg = String::new();
            msg.append("unknown capability: '");
            msg.append(s);
            msg.append("'");
            Err(msg)
        }
    }

    /// Read a list of capability names (the serialized form of a `Cap`):
    /// the union of the named capabilities. Fails on the first unknown
    /// name, and on a list that grants nothing.
    pub fn parse_list(names: &Vec<String>) -> (r: Result<Cap, String>)
        ensures
            match cap_names_union(string_views(names@)) {
                Err(e) => r matches Err(m) && m@ == e,
                Ok(b) => if b == 0 {
                    r matches Err(m) && m@ == empty_cap_list_message()
                } else {
                    r == Ok::<Cap, String>(Cap { bits: b })
                },
            },
    {
        let ghost views = string_views(names@);
        let mut caps = Cap::empty();
        let mut i: usize = 0;
        while i < names.len()
            invariant
                i <= names@.len(),
                views == string_views(names@),
                cap_names_union(views.take(i as int)) == Ok::<u8, Seq<char>>(caps@),
            decreases names.len() - i,
        {
            assert(views.take(i + 1).drop_last() =~= views.take(i as int));
            match Cap::parse_single(names[i].as_str()) {
                Ok(c) => {
                    caps = caps.union(c);
                },
                Err(e) => {
                    assert(views.take(i + 1).last() == names@[i as int]@);
                    assert(cap_names_union(views.take(i + 1)) is Err);
                    proof { lemma_union_err_stays(views, i as int + 1); }
                    return Err(e);
                },
            }
            i = i + 1;
        }
        assert(views.take(names@.len() as int) =~= views);
        if caps.is_empty() {
            let mut msg = String::new();
            msg.append("capability list must not be empty");
            return Err(msg);
        }
        Ok(caps)
    }

    /// Format capabilities as a human-readable string like "read + write".
    pub fn display(&self) -> (r: String)
        ensures
            r@ == joined(cap_names(self@), " + "@),
    {
        let names = self.to_list();
        join_strs(&names, " + ")
    }

    /// Compact `ls -l`-style capability string: `rwcdx`.
    ///
    /// Each position is the capability letter when set, or `-` when absent:
    /// `r`ead `w`rite `c`reate `d`elete e`x`ecute.
    pub fn short(&self) -> (r: String)
        ensures
            r@ == cap_short(self@),
    {
        let mut s = String::new();
        push_char(&mut s, if self.contains(Cap::READ()) { 'r' } else { '-' });
        push_char(&mut s, if self.contains(Cap::WRITE()) { 'w' } else { '-' });
        push_char(&mut s, if self.contains(Cap::CREATE()) { 'c' } else { '-' });
        push_char(&mut s, if self.contains(Cap::DELETE()) { 'd' } else { '-' });
        push_char(&mut s, if self.contains(Cap::EXECUTE()) { 'x' } else { '-' });
        assert(s@ =~= cap_short(self@));
        s
    }
}

/// Once reading a prefix of a name list has failed, reading any longer
/// prefix fails with the same error.
proof fn lemma_union_err_stays(names: Seq<Seq<char>>, k: int)
    requires
        0 <= k <= names.len(),
        cap_names_union(names.take(k)) is Err,
    ensures
        cap_names_union(names) == cap_names_union(names.take(k)),
    decreases names.len() - k,
{
    if k < names.len() {
        assert(names.take(k + 1).drop_last() =~= names.take(k));
        lemma_union_err_stays(names, k + 1);
    } else {
        assert(names.take(k) =~= names);
    }
}

impl core::ops::BitOr for Cap {
    type Output = Cap;

    fn bitor(self, other: Cap) -> (r: Cap)
        ensures
            r@ == self@ | other@,
    {
        self.union(other)
    }
}

impl vstd::std_specs::ops::BitOrSpecImpl for Cap {
    open spec fn obeys_bitor_spec() -> bool {
        true
    }

    open spec fn bitor_req(self, rhs: Cap) -> bool {
        true
    }

    open spec fn bitor_spec(self, rhs: Cap) -> Cap {
        self.spec_union(rhs)
    }
}

impl core::ops::BitAnd for Cap {
    type Output = Cap;

    fn bitand(self, other: Cap) -> (r: Cap)
        ensures
            r@ == self@ & other@,
    {
        self.intersection(other)
    }
}

impl vstd::std_specs::ops::BitAndSpecImpl for Cap {
    open spec fn obeys_bitand_spec() -> bool {
        true
    }

    open spec fn bitand_req(self, rhs: Cap) -> bool {
        true
    }

    open spec fn bitand_spec(self, rhs: Cap) -> Cap {
        self.spec_intersection(rhs)
    }
}

impl core::ops::Not for Cap {
    type Output = Cap;

    fn not(self) -> (r: Cap)
        ensures
            r@ == !self@ & ALL_CAP_BITS,
    {
        self.complement()
    }
}

impl vstd::std_specs::ops::NotSpecImpl for Cap {
    open spec fn obeys_not_spec() -> bool {
        true
    }

    open spec fn not_req(self) -> bool {
        true
    }

    open spec fn not_spec(self) -> Cap {
        self.spec_complement()
    }
}

} // verus!

verus! {

/// Opt-in system capabilities beyond filesystem and network access.
///
/// These grant narrow kernel services that some workloads require but
/// that default-deny sandboxes block. Each is enforced where the
/// platform supports it (macOS Seatbelt) and is a no-op elsewhere
/// (Linux Landlock/seccomp does not restrict these services).
#[derive(Debug, Clone, Copy, PartialEq, Eq, Structural, Hash)]
pub struct SystemCap {
    /// The raw flag bits; bits beyond the two known capabilities are kept as given.
    pub bits: u8,
}

/// The bit for receiving power-management notifications.
pub const POWER_BIT: u8 = 1u8;
/// The bit for binding and accepting connections on loopback ports.
pub const LOCALHOST_SERVE_BIT: u8 = 2u8;
/// Both system capability bits.
pub const ALL_SYSTEM_BITS: u8 = 3u8;

impl View for SystemCap {
    type V = u8;

    open spec fn view(&self) -> u8 {
        self.bits
    }
}

/// The names of the system capabilities set in `bits`: power, then
/// localhost_serve.
pub open spec fn system_cap_names(bits: u8) -> Seq<Seq<char>> {
    (if bits & POWER_BIT == POWER_BIT { seq!["power"@] } else { Seq::empty() })
        + (if bits & LOCALHOST_SERVE_BIT == LOCALHOST_SERVE_BIT {
        seq!["localhost_serve"@]
    } else {
        Seq::empty()
    })
}

/// The system capability bit a single name stands for, if it is known.
pub open spec fn system_cap_for_name(name: Seq<char>) -> Option<u8> {
    if name == "power"@ {
        Some(POWER_BIT)
    } else if name == "localhost_serve"@ {
        Some(LOCALHOST_SERVE_BIT)
    } else {
        None
    }
}

/// The error message for a name that is not a system capability.
pub open spec fn unknown_system_cap_message(name: Seq<char>) -> Seq<char> {
    "unknown system capability: '"@ + name + "' (expected \"power\" or \"localhost_serve\")"@
}

/// The result of reading a list of system capability names in order.
pub open spec fn system_cap_names_union(names: Seq<Seq<char>>) -> Result<u8, Seq<char>>
    decreases names.len(),
{
    if names.len() == 0 {
        Ok(0u8)
    } else {
        match system_cap_names_union(names.drop_last()) {
            Err(e) => Err(e),
            Ok(b) => match system_cap_for_name(names.last()) {
                Some(c) => Ok(b | c),
                None => Err(unknown_system_cap_message(names.last())),
            },
        }
    }
}

#[allow(non_snake_case)]
impl SystemCap {
    /// A set holding exactly `bits`, known or not.
    pub fn from_bits_retain(bits: u8) -> (r: SystemCap)
        ensures
            r@ == bits,
    {
        SystemCap { bits }
    }

    /// The raw bits of this set.
    pub fn bits(&self) -> (r: u8)
        ensures
            r == self@,
    {
        self.bits
    }

    /// Receive power-management notifications (system sleep/wake).
    pub fn POWER() -> (r: SystemCap)
        ensures
            r@ == POWER_BIT,
    {
        SystemCap { bits: POWER_BIT }
    }

    /// Bind and accept connections on loopback (localhost) ports.
    pub fn LOCALHOST_SERVE() -> (r: SystemCap)
        ensures
            r@ == LOCALHOST_SERVE_BIT,
    {
        SystemCap { bits: LOCALHOST_SERVE_BIT }
    }

    /// The empty set.
    pub fn empty() -> (r: SystemCap)
        ensures
            r@ == 0,
    {
        SystemCap { bits: 0 }
    }

    /// Every known system capability.
    pub fn all() -> (r: SystemCap)
        ensures
            r@ == ALL_SYSTEM_BITS,
    {
        SystemCap { bits: ALL_SYSTEM_BITS }
    }

    pub open spec fn spec_contains(&self, other: SystemCap) -> bool {
        self@ & other@ == other@
    }

    /// Whether every capability of `other` is in `self`.
    #[verifier::when_used_as_spec(spec_contains)]
    pub fn contains(&self, other: SystemCap) -> (r: bool)
        ensures
            r == self.spec_contains(other),
    {
        self.bits & other.bits == other.bits
    }

    pub open spec fn spec_is_empty(&self) -> bool {
        self@ == 0
    }

    /// Whether no bit is set.
    #[verifier::when_used_as_spec(spec_is_empty)]
    pub fn is_empty(&self) -> (r: bool)
        ensures
            r == self.spec_is_empty(),
    {
        self.bits == 0
    }

    pub open spec fn spec_union(self, other: SystemCap) -> SystemCap {
        SystemCap { bits: self@ | other@ }
    }

    /// The capabilities in either set.
    #[verifier::when_used_as_spec(spec_union)]
    pub fn union(self, other: SystemCap) -> (r: SystemCap)
        ensures
            r == self.spec_union(other),
            r@ == self@ | other@,
    {
        SystemCap { bits: self.bits | other.bits }
    }

    /// Return capabilities as a list of name strings.
    pub fn to_list(&self) -> (r: Vec<&'static str>)
        ensures
            str_views(r@) == system_cap_names(self@),
    {
        let mut names: Vec<&'static str> = Vec::new();
        if self.contains(SystemCap::POWER()) {
            names.push("power");
        }
        if self.contains(SystemCap::LOCALHOST_SERVE()) {
            names.push("localhost_serve");
        }
        assert(str_views(names@) =~= system_cap_names(self@));
        names
    }

    /// Parse a single system capability name.
    pub fn parse_single(s: &str) -> (r: Result<SystemCap, String>)
        ensures
            match r {
                Ok(c) => system_cap_for_name(s@) == Some(c@),
                Err(e) => system_cap_for_name(s@) is None && e@ == unknown_system_cap_message(
                    s@,
                ),
            },
    {
        if str_eq(s, "power") {
            Ok(SystemCap::POWER())
        } else if str_eq(s, "localhost_serve") {
            Ok(SystemCap::LOCALHOST_SERVE())
        } else {
            let mut msg = String::new();
            msg.append("unknown system capability: '");
            msg.append(s);
            msg.append("' (expected \"power\" or \"localhost_serve\")");
            Err(msg)
        }
    }

    /// Read a list of system capability names (the serialized form of a
    /// `SystemCap`): the union of the named capabilities, or the error for
    /// the first unknown name. Duplicates collapse; an empty list is empty.
    pub fn parse_list(names: &Vec<String>) -> (r: Result<SystemCap, String>)
        ensures
            match system_cap_names_union(string_views(names@)) {
                Err(e) => r matches Err(m) && m@ == e,
                Ok(b) => r == Ok::<SystemCap, String>(SystemCap { bits: b }),
            },
    {
        let ghost views = string_views(names@);
        let mut caps = SystemCap::empty();
        let mut i: usize = 0;
        while i < names.len()
            invariant
                i <= names@.len(),
                views == string_views(names@),
                system_cap_names_union(views.take(i as int)) == Ok::<u8, Seq<char>>(caps@),
            decreases names.len() - i,
        {
            assert(views.take(i + 1).drop_last() =~= views.take(i as int));
            match SystemCap::parse_single(names[i].as_str()) {
                Ok(c) => {
                    caps = caps.union(c);
                },
                Err(e) => {
                    assert(views.take(i + 1).last() == names@[i as int]@);
                    proof { lemma_system_union_err_stays(views, i as int + 1); }
                    return Err(e);
                },
            }
            i = i + 1;
        }
        assert(views.take(names@.len() as int) =~= views);
        Ok(caps)
    }

    /// Format capabilities as a human-readable string like "power + localhost_serve".
    pub fn display(&self) -> (r: String)
        ensures
            r@ == joined(system_cap_names(self@), " + "@),
    {
        let names = self.to_list();
        join_strs(&names, " + ")
    }
}

/// Once reading a list of system capability names has failed, reading more
/// names keeps the failure.
proof fn lemma_system_union_err_stays(names: Seq<Seq<char>>, k: int)
    requires
        0 <= k <= names.len(),
        system_cap_names_union(names.take(k)) is Err,
    ensures
        system_cap_names_union(names) == system_cap_names_union(names.take(k)),
    decreases names.len() - k,
{
    if k < names.len() {
        assert(names.take(k + 1).drop_last() =~= names.take(k));
        lemma_system_union_err_stays(names, k + 1);
    } else {
        assert(names.take(k) =~= names);
    }
}

impl core::ops::BitOr for SystemCap {
    type Output = SystemCap;

    fn bitor(self, other: SystemCap) -> (r: SystemCap)
        ensures
            r@ == self@ | other@,
    {
        self.union(other)
    }
}

impl vstd::std_specs::ops::BitOrSpecImpl for SystemCap {
    open spec fn obeys_bitor_spec() -> bool {
        true
    }

    open spec fn bitor_req(self, rhs: SystemCap) -> bool {
        true
    }

    open spec fn bitor_spec(self, rhs: SystemCap) -> SystemCap {
        self.spec_union(rhs)
    }
}

} // verus!
