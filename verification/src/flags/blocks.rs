//! The columns ("blocks") a long listing can show for each entry.

use vstd::prelude::*;

verus! {

/// One column of a listing.
#[derive(Clone, Copy, Debug, PartialEq, Eq, Structural)]
pub enum Block {
    Permission,
    User,
    Group,
    Context,
    Size,
    SizeValue,
    Date,
    Name,
    INode,
    Links,
    GitStatus,
}

/// The title of a column, as the header row shows it.
pub open spec fn header_of(b: Block) -> Seq<char> {
    match b {
        Block::Permission => seq!['P', 'e', 'r', 'm', 'i', 's', 's', 'i', 'o', 'n', 's'],
        Block::User => seq!['U', 's', 'e', 'r'],
        Block::Group => seq!['G', 'r', 'o', 'u', 'p'],
        Block::Context => seq!['C', 'o', 'n', 't', 'e', 'x', 't'],
        Block::Size => seq!['S', 'i', 'z', 'e'],
        Block::SizeValue => seq!['S', 'i', 'z', 'e', 'V', 'a', 'l', 'u', 'e'],
        Block::Date => seq!['D', 'a', 't', 'e', ' ', 'M', 'o', 'd', 'i', 'f', 'i', 'e', 'd'],
        Block::Name => seq!['N', 'a', 'm', 'e'],
        Block::INode => seq!['I', 'N', 'o', 'd', 'e'],
        Block::Links => seq!['L', 'i', 'n', 'k', 's'],
        Block::GitStatus => seq!['G', 'i', 't'],
    }
}

impl Block {
    /// The title of this column.
    pub fn get_header(self) -> (r: &'static str)
        ensures
            r@ == header_of(self),
    {
        match self {
            Block::Permission => {
                proof { reveal_strlit("Permissions"); }
                "Permissions"
            },
            Block::User => {
                proof { reveal_strlit("User"); }
                "User"
            },
            Block::Group => {
                proof { reveal_strlit("Group"); }
                "Group"
            },
            Block::Context => {
                proof { reveal_strlit("Context"); }
                "Context"
            },
            Block::Size => {
                proof { reveal_strlit("Size"); }
                "Size"
            },
            Block::SizeValue => {
                proof { reveal_strlit("SizeValue"); }
                "SizeValue"
            },
            Block::Date => {
                proof { reveal_strlit("Date Modified"); }
                "Date Modified"
            },
            Block::Name => {
                proof { reveal_strlit("Name"); }
                "Name"
            },
            Block::INode => {
                proof { reveal_strlit("INode"); }
                "INode"
            },
            Block::Links => {
                proof { reveal_strlit("Links"); }
                "Links"
            },
            Block::GitStatus => {
                proof { reveal_strlit("Git"); }
                "Git"
            },
        }
    }
}

} // verus!
