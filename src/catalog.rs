//! The catalog of error codes that the instrument reports, with their
//! descriptions.
use crate::error::Error;
use vstd::prelude::*;

verus! {

/// An error that the instrument reported, with its catalog description.
/// Only a catalog makes one. Two such errors are equal when their codes are.
#[derive(Clone, Copy, Debug)]
pub struct KsDevErr {
    code: i32,
    desc: &'static str,
}

impl View for KsDevErr {
    type V = (i32, &'static str);

    closed spec fn view(&self) -> (i32, &'static str) {
        (self.code, self.desc)
    }
}

impl KsDevErr {
    /// The error of `code` with the description `desc`.
    pub closed spec fn spec_new(code: i32, desc: &'static str) -> KsDevErr {
        KsDevErr { code, desc }
    }

    pub proof fn lemma_spec_new_view(code: i32, desc: &'static str)
        ensures
            Self::spec_new(code, desc)@ == (code, desc),
    {
    }

    pub fn code(&self) -> (r: i32)
        ensures
            r == self@.0,
    {
        self.code
    }

    pub fn description(&self) -> (r: &'static str)
        ensures
            r == self@.1,
    {
        self.desc
    }
}

impl PartialEq for KsDevErr {
    fn eq(&self, o: &KsDevErr) -> (r: bool) {
        self.code == o.code
    }
}

impl vstd::std_specs::cmp::PartialEqSpecImpl for KsDevErr {
    open spec fn obeys_eq_spec() -> bool {
        true
    }

    open spec fn eq_spec(&self, o: &KsDevErr) -> bool {
        self@.0 == o@.0
    }
}

/// The description registered first for `code` in `entries`.
pub open spec fn first_match(entries: Seq<(i32, &'static str)>, code: i32) -> Option<&'static str>
    decreases entries.len(),
{
    if entries.len() == 0 {
        None
    } else if entries[0].0 == code {
        Some(entries[0].1)
    } else {
        first_match(entries.drop_first(), code)
    }
}

/// The errors of the SCPI standard and those of the counter itself.
pub open spec fn standard_entries() -> Seq<(i32, &'static str)> {
    seq![
        (0i32, "No error"),
        (-100i32, "Command error"),
        (-101i32, "Invalid character"),
        (-102i32, "Syntax error"),
        (-103i32, "Invalid separator"),
        (-104i32, "Data type error"),
        (-105i32, "GET not allowed"),
        (-108i32, "Parameter not allowed"),
        (-109i32, "Missing parameter"),
        (-110i32, "Command header error"),
        (-111i32, "Header separator error"),
        (-112i32, "Program mnemonic too long"),
        (-113i32, "Undefined header"),
        (-114i32, "Header suffix out of range"),
        (-120i32, "Numeric data error"),
        (-121i32, "Invalid character in number"),
        (-123i32, "Exponent too large"),
        (-124i32, "Too many digits"),
        (-128i32, "Numeric data not allowed"),
        (-130i32, "Suffix error"),
        (-131i32, "Invalid suffix"),
        (-134i32, "Suffix too long"),
        (-138i32, "Suffix not allowed"),
        (-140i32, "Character data error"),
        (-141i32, "Invalid character data"),
        (-144i32, "Character data too long"),
        (-148i32, "Character data not allowed"),
        (-150i32, "String data error"),
        (-151i32, "Invalid string data"),
        (-158i32, "String data not allowed"),
        (-160i32, "Block data error"),
        (-161i32, "Invalid block data"),
        (-168i32, "Block data not allowed"),
        (-170i32, "Expression error"),
        (-171i32, "Invalid expression"),
        (-178i32, "Expression data not allowed"),
        (-200i32, "Execution error"),
        (-203i32, "Command protected"),
        (-210i32, "Trigger error"),
        (-211i32, "Trigger ignored"),
        (-213i32, "INIT ignored"),
        (-214i32, "Trigger deadlock"),
        (-220i32, "Parameter error"),
        (-221i32, "Settings conflict"),
        (-222i32, "Data out of range"),
        (-223i32, "Too much data"),
        (-224i32, "Illegal parameter value"),
        (-230i32, "Data corrupt or stale"),
        (-240i32, "Hardware error"),
        (-241i32, "Hardware missing"),
        (-250i32, "Mass storage error"),
        (-256i32, "File name not found"),
        (-257i32, "File name error"),
        (-300i32, "Device-specific error"),
        (-310i32, "System error"),
        (-311i32, "Memory error"),
        (-313i32, "Calibration memory lost"),
        (-314i32, "Save/recall memory lost"),
        (-315i32, "Configuration memory lost"),
        (-330i32, "Self-test failed"),
        (-350i32, "Queue overflow"),
        (-400i32, "Query error"),
        (-410i32, "Query INTERRUPTED"),
        (-420i32, "Query UNTERMINATED"),
        (-430i32, "Query DEADLOCKED"),
        (-440i32, "Query UNTERMINATED after indefinite response"),
        (100i32, "Network error"),
        (201i32, "Memory lost: stored state"),
        (202i32, "Memory lost: power-on state"),
        (203i32, "Memory lost: stored readings"),
        (263i32, "Not able to execute while instrument is measuring"),
        (291i32, "Not able to recall state: it is empty"),
        (292i32, "State file size error"),
        (293i32, "State file corrupt"),
        (514i32, "Not allowed"),
        (521i32, "Communications: input buffer overflow"),
        (522i32, "Communications: output buffer overflow"),
        (532i32, "Cannot achieve requested resolution"),
        (540i32, "Cannot use overload as math reference"),
        (550i32, "Not able to execute command in local mode"),
    ]
}

/// A read-only table from error code to description. Where a code occurs
/// more than once, the first entry is the one that counts.
pub struct ErrorCatalog {
    entries: Vec<(i32, &'static str)>,
}

impl View for ErrorCatalog {
    type V = Seq<(i32, &'static str)>;

    closed spec fn view(&self) -> Seq<(i32, &'static str)> {
        self.entries@
    }
}

impl ErrorCatalog {
    /// The catalog of `standard_entries`.
    pub fn new() -> (r: ErrorCatalog)
        ensures
            r@ == standard_entries(),
    {
        let entries = vec![
            (0i32, "No error"),
            (-100i32, "Command error"),
            (-101i32, "Invalid character"),
            (-102i32, "Syntax error"),
            (-103i32, "Invalid separator"),
            (-104i32, "Data type error"),
            (-105i32, "GET not allowed"),
            (-108i32, "Parameter not allowed"),
            (-109i32, "Missing parameter"),
            (-110i32, "Command header error"),
            (-111i32, "Header separator error"),
            (-112i32, "Program mnemonic too long"),
            (-113i32, "Undefined header"),
            (-114i32, "Header suffix out of range"),
            (-120i32, "Numeric data error"),
            (-121i32, "Invalid character in number"),
            (-123i32, "Exponent too large"),
            (-124i32, "Too many digits"),
            (-128i32, "Numeric data not allowed"),
            (-130i32, "Suffix error"),
            (-131i32, "Invalid suffix"),
            (-134i32, "Suffix too long"),
            (-138i32, "Suffix not allowed"),
            (-140i32, "Character data error"),
            (-141i32, "Invalid character data"),
            (-144i32, "Character data too long"),
            (-148i32, "Character data not allowed"),
            (-150i32, "String data error"),
            (-151i32, "Invalid string data"),
            (-158i32, "String data not allowed"),
            (-160i32, "Block data error"),
            (-161i32, "Invalid block data"),
            (-168i32, "Block data not allowed"),
            (-170i32, "Expression error"),
            (-171i32, "Invalid expression"),
            (-178i32, "Expression data not allowed"),
            (-200i32, "Execution error"),
            (-203i32, "Command protected"),
            (-210i32, "Trigger error"),
            (-211i32, "Trigger ignored"),
            (-213i32, "INIT ignored"),
            (-214i32, "Trigger deadlock"),
            (-220i32, "Parameter error"),
            (-221i32, "Settings conflict"),
            (-222i32, "Data out of range"),
            (-223i32, "Too much data"),
            (-224i32, "Illegal parameter value"),
            (-230i32, "Data corrupt or stale"),
            (-240i32, "Hardware error"),
            (-241i32, "Hardware missing"),
            (-250i32, "Mass storage error"),
            (-256i32, "File name not found"),
            (-257i32, "File name error"),
            (-300i32, "Device-specific error"),
            (-310i32, "System error"),
            (-311i32, "Memory error"),
            (-313i32, "Calibration memory lost"),
            (-314i32, "Save/recall memory lost"),
            (-315i32, "Configuration memory lost"),
            (-330i32, "Self-test failed"),
            (-350i32, "Queue overflow"),
            (-400i32, "Query error"),
            (-410i32, "Query INTERRUPTED"),
            (-420i32, "Query UNTERMINATED"),
            (-430i32, "Query DEADLOCKED"),
            (-440i32, "Query UNTERMINATED after indefinite response"),
            (100i32, "Network error"),
            (201i32, "Memory lost: stored state"),
            (202i32, "Memory lost: power-on state"),
            (203i32, "Memory lost: stored readings"),
            (263i32, "Not able to execute while instrument is measuring"),
            (291i32, "Not able to recall state: it is empty"),
            (292i32, "State file size error"),
            (293i32, "State file corrupt"),
            (514i32, "Not allowed"),
            (521i32, "Communications: input buffer overflow"),
            (522i32, "Communications: output buffer overflow"),
            (532i32, "Cannot achieve requested resolution"),
            (540i32, "Cannot use overload as math reference"),
            (550i32, "Not able to execute command in local mode"),
        ];
        assert(entries@ =~= standard_entries());
        ErrorCatalog { entries }
    }

    /// A catalog of the given entries, in their order.
    pub fn from_entries(entries: Vec<(i32, &'static str)>) -> (r: ErrorCatalog)
        ensures
            r@ == entries@,
    {
        ErrorCatalog { entries }
    }

    /// The description of `code`, or `None` for a code that is not listed.
    pub fn lookup(&self, code: i32) -> (r: Option<&'static str>)
        ensures
            r == first_match(self@, code),
    {
        let mut i: usize = 0;
        proof {
            assert(self.entries@.skip(0) =~= self.entries@);
        }
        while i < self.entries.len()
            invariant
                i <= self.entries@.len(),
                first_match(self.entries@, code) == first_match(self.entries@.skip(i as int), code),
            decreases self.entries@.len() - i,
        {
            let ghost rest = self.entries@.skip(i as int);
            assert(rest[0] == self.entries@[i as int]);
            assert(rest.drop_first() =~= self.entries@.skip(i + 1));
            if self.entries[i].0 == code {
                return Some(self.entries[i].1);
            }
            i = i + 1;
        }
        None
    }

    /// The error that `code` stands for, or `UnknownCode` for a code that is
    /// not listed.
    pub fn resolve(&self, code: i32) -> (r: Result<KsDevErr, Error>)
        ensures
            match first_match(self@, code) {
                Some(d) => r == Ok::<KsDevErr, Error>(KsDevErr::spec_new(code, d)),
                None => r == Err::<KsDevErr, Error>(Error::UnknownCode(code)),
            },
    {
        match self.lookup(code) {
            Some(d) => Ok(KsDevErr { code, desc: d }),
            None => Err(Error::UnknownCode(code)),
        }
    }
}

} // verus!
