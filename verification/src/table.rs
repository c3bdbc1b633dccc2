//! The classification table and the five entities.

use crate::encoding::lemma_entity_bytes;
use vstd::prelude::*;
use vstd::string::StringSliceAdditionalSpecFns;

verus! {

/// Code stored in the classification table for a byte that is copied as it is.
pub const NO_ESCAPE: u8 = 9;

/// One code per byte value: the index of the entity that replaces the byte,
/// or `NO_ESCAPE`.
pub const CLASS_TABLE: [u8; 256] = [
    9, 9, 9, 9, 9, 9, 9, 9, 9, 9, 9, 9, 9, 9, 9, 9,
    9, 9, 9, 9, 9, 9, 9, 9, 9, 9, 9, 9, 9, 9, 9, 9,
    9, 9, 0, 9, 9, 9, 1, 2, 9, 9, 9, 9, 9, 9, 9, 9,
    9, 9, 9, 9, 9, 9, 9, 9, 9, 9, 9, 9, 3, 9, 4, 9,
    9, 9, 9, 9, 9, 9, 9, 9, 9, 9, 9, 9, 9, 9, 9, 9,
    9, 9, 9, 9, 9, 9, 9, 9, 9, 9, 9, 9, 9, 9, 9, 9,
    9, 9, 9, 9, 9, 9, 9, 9, 9, 9, 9, 9, 9, 9, 9, 9,
    9, 9, 9, 9, 9, 9, 9, 9, 9, 9, 9, 9, 9, 9, 9, 9,
    9, 9, 9, 9, 9, 9, 9, 9, 9, 9, 9, 9, 9, 9, 9, 9,
    9, 9, 9, 9, 9, 9, 9, 9, 9, 9, 9, 9, 9, 9, 9, 9,
    9, 9, 9, 9, 9, 9, 9, 9, 9, 9, 9, 9, 9, 9, 9, 9,
    9, 9, 9, 9, 9, 9, 9, 9, 9, 9, 9, 9, 9, 9, 9, 9,
    9, 9, 9, 9, 9, 9, 9, 9, 9, 9, 9, 9, 9, 9, 9, 9,
    9, 9, 9, 9, 9, 9, 9, 9, 9, 9, 9, 9, 9, 9, 9, 9,
    9, 9, 9, 9, 9, 9, 9, 9, 9, 9, 9, 9, 9, 9, 9, 9,
    9, 9, 9, 9, 9, 9, 9, 9, 9, 9, 9, 9, 9, 9, 9, 9,
];

/// The five replacement entities, in table order.
#[derive(Clone, Copy, Debug, PartialEq, Eq, Structural)]
pub enum Entity {
    Quot,
    Amp,
    Apos,
    Lt,
    Gt,
}

/// The bytes that are replaced: `"`, `&`, `'`, `<` and `>`.
pub open spec fn is_signal(b: u8) -> bool {
    b == 0x22 || b == 0x26 || b == 0x27 || b == 0x3c || b == 0x3e
}

/// The entity that stands for a byte, if the byte is replaced at all.
pub open spec fn class_of(b: u8) -> Option<Entity> {
    if b == 0x22 {
        Some(Entity::Quot)
    } else if b == 0x26 {
        Some(Entity::Amp)
    } else if b == 0x27 {
        Some(Entity::Apos)
    } else if b == 0x3c {
        Some(Entity::Lt)
    } else if b == 0x3e {
        Some(Entity::Gt)
    } else {
        None
    }
}

impl Entity {
    /// Position of the entity in the entity table.
    pub open spec fn index(self) -> nat {
        match self {
            Entity::Quot => 0,
            Entity::Amp => 1,
            Entity::Apos => 2,
            Entity::Lt => 3,
            Entity::Gt => 4,
        }
    }

    /// The entity as text.
    pub open spec fn text(self) -> Seq<char> {
        match self {
            Entity::Quot => seq!['&', 'q', 'u', 'o', 't', ';'],
            Entity::Amp => seq!['&', 'a', 'm', 'p', ';'],
            Entity::Apos => seq!['&', '#', '0', '3', '9', ';'],
            Entity::Lt => seq!['&', 'l', 't', ';'],
            Entity::Gt => seq!['&', 'g', 't', ';'],
        }
    }

    /// The entity as the bytes that reach the output.
    pub open spec fn bytes(self) -> Seq<u8> {
        match self {
            Entity::Quot => seq![0x26u8, 0x71u8, 0x75u8, 0x6fu8, 0x74u8, 0x3bu8],
            Entity::Amp => seq![0x26u8, 0x61u8, 0x6du8, 0x70u8, 0x3bu8],
            Entity::Apos => seq![0x26u8, 0x23u8, 0x30u8, 0x33u8, 0x39u8, 0x3bu8],
            Entity::Lt => seq![0x26u8, 0x6cu8, 0x74u8, 0x3bu8],
            Entity::Gt => seq![0x26u8, 0x67u8, 0x74u8, 0x3bu8],
        }
    }

    /// The entity for a table code, if the code is one of the five indices.
    pub fn from_index(code: u8) -> (r: Option<Entity>)
        ensures
            match r {
                Some(e) => e.index() == code,
                None => code >= 5,
            },
    {
        match code {
            0 => Some(Entity::Quot),
            1 => Some(Entity::Amp),
            2 => Some(Entity::Apos),
            3 => Some(Entity::Lt),
            4 => Some(Entity::Gt),
            _ => None,
        }
    }

    /// The replacement text of the entity.
    pub fn as_str(self) -> (s: &'static str)
        ensures
            s@ == self.text(),
            s.spec_bytes() == self.bytes(),
    {
        proof {
            lemma_entity_bytes(self);
        }
        match self {
            Entity::Quot => {
                proof {
                    reveal_strlit("&quot;");
                }
                assert("&quot;"@ =~= Entity::Quot.text());
                "&quot;"
            },
            Entity::Amp => {
                proof {
                    reveal_strlit("&amp;");
                }
                assert("&amp;"@ =~= Entity::Amp.text());
                "&amp;"
            },
            Entity::Apos => {
                proof {
                    reveal_strlit("&#039;");
                }
                assert("&#039;"@ =~= Entity::Apos.text());
                "&#039;"
            },
            Entity::Lt => {
                proof {
                    reveal_strlit("&lt;");
                }
                assert("&lt;"@ =~= Entity::Lt.text());
                "&lt;"
            },
            Entity::Gt => {
                proof {
                    reveal_strlit("&gt;");
                }
                assert("&gt;"@ =~= Entity::Gt.text());
                "&gt;"
            },
        }
    }
}

/// Looks a byte up in the classification table.
pub fn classify(b: u8) -> (r: Option<Entity>)
    ensures
        r == class_of(b),
        r is Some <==> is_signal(b),
{
    let code: u8 = CLASS_TABLE[b as usize];
    Entity::from_index(code)
}

} // verus!
