//! The metadata registers that can be written.

use vstd::prelude::*;
use vstd::string::*;
use crate::protocol::instructions::{
    setting_echoed, Decode, Instruction, Reply, UnknownInstruction,
};
use crate::protocol::payload_helpers;
use crate::protocol::payload_helpers::{esc_rcdr, normalize, shorten, RCDR, RCDR_LOWER};
use crate::text;
use crate::text::{decimal_string, join2, join3, same};

verus! {

/// The longest value, in characters, that a register takes.
pub const MAX_VALUE_LEN: usize = 127;

/// A metadata register.
#[derive(Debug, Clone, Copy, PartialEq, Eq, Structural)]
pub enum Register {
    Contributor,
    Course,
    Coverage,
    Creator,
    Description,
    Format,
    Language,
    Presenter,
    Publisher,
    Relation,
    Rights,
    Source,
    Subject,
    SystemName,
    Title,
    Type,
}

impl Register {
    pub open spec fn spelling(self) -> Seq<char> {
        match self {
            Register::Contributor => "CONTRIBUTOR"@,
            Register::Course => "COURSE"@,
            Register::Coverage => "COVERAGE"@,
            Register::Creator => "CREATOR"@,
            Register::Description => "DESCRIPTION"@,
            Register::Format => "FORMAT"@,
            Register::Language => "LANGUAGE"@,
            Register::Presenter => "PRESENTER"@,
            Register::Publisher => "PUBLISHER"@,
            Register::Relation => "RELATION"@,
            Register::Rights => "RIGHTS"@,
            Register::Source => "SOURCE"@,
            Register::Subject => "SUBJECT"@,
            Register::SystemName => "SYSTEMNAME"@,
            Register::Title => "TITLE"@,
            Register::Type => "TYPE"@,
        }
    }

    /// The registers whose address is known: all but one.
    pub open spec fn addressed(self) -> bool {
        self != Register::Creator
    }

    pub open spec fn address(self) -> nat {
        match self {
            Register::Contributor => 0,
            Register::Coverage => 1,
            Register::Presenter => 2,
            Register::Description => 4,
            Register::Format => 5,
            Register::Language => 7,
            Register::Publisher => 8,
            Register::Relation => 9,
            Register::Rights => 10,
            Register::Source => 11,
            Register::Subject => 12,
            Register::Title => 13,
            Register::Type => 14,
            Register::SystemName => 15,
            Register::Course => 16,
            Register::Creator => arbitrary(),
        }
    }

    pub open spec fn address_text(self) -> Seq<char> {
        "M"@ + text::decimal(self.address())
    }

    /// Every register there is.
    pub fn all() -> (r: Vec<Register>)
        ensures
            r@ == seq![
                Register::Contributor,
                Register::Course,
                Register::Coverage,
                Register::Creator,
                Register::Description,
                Register::Format,
                Register::Language,
                Register::Presenter,
                Register::Publisher,
                Register::Relation,
                Register::Rights,
                Register::Source,
                Register::Subject,
                Register::SystemName,
                Register::Title,
                Register::Type,
            ],
    {
        vec![
            Register::Contributor,
            Register::Course,
            Register::Coverage,
            Register::Creator,
            Register::Description,
            Register::Format,
            Register::Language,
            Register::Presenter,
            Register::Publisher,
            Register::Relation,
            Register::Rights,
            Register::Source,
            Register::Subject,
            Register::SystemName,
            Register::Title,
            Register::Type,
        ]
    }

    /// The number of the register on the device.
    pub fn index(self) -> (r: u8)
        requires
            self.addressed(),
        ensures
            r == self.address(),
            r <= 16,
    {
        match self {
            Register::Contributor => 0,
            Register::Coverage => 1,
            Register::Presenter => 2,
            Register::Description => 4,
            Register::Format => 5,
            Register::Language => 7,
            Register::Publisher => 8,
            Register::Relation => 9,
            Register::Rights => 10,
            Register::Source => 11,
            Register::Subject => 12,
            Register::Title => 13,
            Register::Type => 14,
            Register::SystemName => 15,
            Register::Course | Register::Creator => 16,
        }
    }

    pub fn name(self) -> (r: &'static str)
        ensures
            r@ == self.spelling(),
    {
        match self {
            Register::Contributor => "CONTRIBUTOR",
            Register::Course => "COURSE",
            Register::Coverage => "COVERAGE",
            Register::Creator => "CREATOR",
            Register::Description => "DESCRIPTION",
            Register::Format => "FORMAT",
            Register::Language => "LANGUAGE",
            Register::Presenter => "PRESENTER",
            Register::Publisher => "PUBLISHER",
            Register::Relation => "RELATION",
            Register::Rights => "RIGHTS",
            Register::Source => "SOURCE",
            Register::Subject => "SUBJECT",
            Register::SystemName => "SYSTEMNAME",
            Register::Title => "TITLE",
            Register::Type => "TYPE",
        }
    }

    /// The address of the register as it stands in a command.
    pub fn reg(self) -> (r: String)
        requires
            self.addressed(),
        ensures
            r@ == self.address_text(),
    {
        join2("M", decimal_string(self.index() as u64).as_str())
    }

    /// The wire instruction that writes a value, cut to what the device takes.
    /// Its reply is the echo of the address and the value.
    pub fn instruction(self, value: &str) -> (r: Instruction<Reply>)
        requires
            self.addressed(),
        ensures
            r.name@ == self.spelling(),
            r.payload@ == payload_helpers::framed(
                self.address_text() + "*"@ + payload_helpers::first_chars(
                    value@,
                    MAX_VALUE_LEN as nat,
                ) + RCDR@,
            ),
            forall|b: Seq<char>|
                #[trigger] r.parser.decoded(b) == setting_echoed(
                    RCDR_LOWER@ + self.address_text() + "*"@,
                    b,
                ),
    {
        let reg: String = self.reg();
        let cut: String = shorten(value, MAX_VALUE_LEN);
        let body: String = join3(reg.as_str(), "*", cut.as_str());
        Instruction::custom(
            self.name().to_owned(),
            esc_rcdr(body.as_str()),
            settable_echo(reg.as_str()),
        )
    }

    /// The register of a name, in any case and with hyphens or underscores.
    pub fn from_name(s: &str) -> (r: Result<Register, UnknownInstruction>)
        ensures
            r is Ok ==> r->Ok_0.spelling() == payload_helpers::normal_all(s@),
            r is Err ==> r->Err_0.0@ == s@ && forall|x: Register|
                #[trigger] x.spelling() != payload_helpers::normal_all(s@),
    {
        let name: String = normalize(s);
        let every: Vec<Register> = Register::all();
        let mut i: usize = 0;
        while i < every.len()
            invariant
                i <= every.len(),
                name@ == payload_helpers::normal_all(s@),
                forall|j: int| 0 <= j < i ==> #[trigger] every@[j].spelling() != name@,
            decreases every.len() - i,
        {
            if same(every[i].name(), name.as_str()) {
                return Ok(every[i]);
            }
            i = i + 1;
        }
        proof {
            assert forall|x: Register| #[trigger] x.spelling() != name@ by {
                assert(every@.contains(x)) by {
                    every_register(x);
                }
            }
        }
        Err(UnknownInstruction(s.to_owned()))
    }
}

/// The echo after writing a register: its address and the value.
fn settable_echo(reg: &str) -> (r: Reply)
    ensures
        forall|b: Seq<char>|
            #[trigger] r.decoded(b) == setting_echoed(RCDR_LOWER@ + reg@ + "*"@, b),
{
    Reply::Setting { head: join3(RCDR_LOWER, reg, "*") }
}

proof fn every_register(x: Register)
    ensures
        seq![
            Register::Contributor,
            Register::Course,
            Register::Coverage,
            Register::Creator,
            Register::Description,
            Register::Format,
            Register::Language,
            Register::Presenter,
            Register::Publisher,
            Register::Relation,
            Register::Rights,
            Register::Source,
            Register::Subject,
            Register::SystemName,
            Register::Title,
            Register::Type,
        ].contains(x),
{
}

/// No two registers share an address.
pub proof fn addresses_are_distinct(a: Register, b: Register)
    requires
        a.addressed(),
        b.addressed(),
        a.address() == b.address(),
    ensures
        a == b,
{
}

/// No two registers share a name.
pub proof fn names_are_distinct(a: Register, b: Register)
    requires
        a.spelling() == b.spelling(),
    ensures
        a == b,
{
    reveal_strlit("CONTRIBUTOR");
    reveal_strlit("COURSE");
    reveal_strlit("COVERAGE");
    reveal_strlit("CREATOR");
    reveal_strlit("DESCRIPTION");
    reveal_strlit("FORMAT");
    reveal_strlit("LANGUAGE");
    reveal_strlit("PRESENTER");
    reveal_strlit("PUBLISHER");
    reveal_strlit("RELATION");
    reveal_strlit("RIGHTS");
    reveal_strlit("SOURCE");
    reveal_strlit("SUBJECT");
    reveal_strlit("SYSTEMNAME");
    reveal_strlit("TITLE");
    reveal_strlit("TYPE");
    assert("CONTRIBUTOR"@.len() == 11 && "CONTRIBUTOR"@[0] == 'C' && "CONTRIBUTOR"@[1] == 'O');
    assert("COURSE"@.len() == 6 && "COURSE"@[0] == 'C' && "COURSE"@[1] == 'O');
    assert("COVERAGE"@.len() == 8 && "COVERAGE"@[0] == 'C' && "COVERAGE"@[1] == 'O');
    assert("CREATOR"@.len() == 7 && "CREATOR"@[0] == 'C' && "CREATOR"@[1] == 'R');
    assert("DESCRIPTION"@.len() == 11 && "DESCRIPTION"@[0] == 'D' && "DESCRIPTION"@[1] == 'E');
    assert("FORMAT"@.len() == 6 && "FORMAT"@[0] == 'F' && "FORMAT"@[1] == 'O');
    assert("LANGUAGE"@.len() == 8 && "LANGUAGE"@[0] == 'L' && "LANGUAGE"@[1] == 'A');
    assert("PRESENTER"@.len() == 9 && "PRESENTER"@[0] == 'P' && "PRESENTER"@[1] == 'R');
    assert("PUBLISHER"@.len() == 9 && "PUBLISHER"@[0] == 'P' && "PUBLISHER"@[1] == 'U');
    assert("RELATION"@.len() == 8 && "RELATION"@[0] == 'R' && "RELATION"@[1] == 'E');
    assert("RIGHTS"@.len() == 6 && "RIGHTS"@[0] == 'R' && "RIGHTS"@[1] == 'I');
    assert("SOURCE"@.len() == 6 && "SOURCE"@[0] == 'S' && "SOURCE"@[1] == 'O');
    assert("SUBJECT"@.len() == 7 && "SUBJECT"@[0] == 'S' && "SUBJECT"@[1] == 'U');
    assert("SYSTEMNAME"@.len() == 10 && "SYSTEMNAME"@[0] == 'S' && "SYSTEMNAME"@[1] == 'Y');
    assert("TITLE"@.len() == 5 && "TITLE"@[0] == 'T' && "TITLE"@[1] == 'I');
    assert("TYPE"@.len() == 4 && "TYPE"@[0] == 'T' && "TYPE"@[1] == 'Y');
}

/// The name of a register is already as the catalog spells it, so it reads back
/// as that register.
pub proof fn a_name_is_in_catalog_spelling(x: Register)
    ensures
        payload_helpers::normal_all(x.spelling()) == x.spelling(),
{
    reveal_strlit("CONTRIBUTOR");
    reveal_strlit("COURSE");
    reveal_strlit("COVERAGE");
    reveal_strlit("CREATOR");
    reveal_strlit("DESCRIPTION");
    reveal_strlit("FORMAT");
    reveal_strlit("LANGUAGE");
    reveal_strlit("PRESENTER");
    reveal_strlit("PUBLISHER");
    reveal_strlit("RELATION");
    reveal_strlit("RIGHTS");
    reveal_strlit("SOURCE");
    reveal_strlit("SUBJECT");
    reveal_strlit("SYSTEMNAME");
    reveal_strlit("TITLE");
    reveal_strlit("TYPE");
    assert(payload_helpers::normal_all(x.spelling()) =~= x.spelling());
}

} // verus!
