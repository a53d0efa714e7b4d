//! The names that pools and clones may bear.

use vstd::prelude::*;

use crate::model::{pool_place, ConfigView};
use crate::path::{
    components, law_join_adds_component, law_join_names_place, law_siblings_apart, plain_name,
    within,
};
use crate::text::{control_char, escape, to_chars};
use crate::text::{escaped, is_control};

verus! {

/// What is wrong with a name.
#[derive(Clone, Copy, Debug, PartialEq, Eq, Structural)]
pub enum NameFault {
    /// The name is empty.
    Empty,
    /// The name is `.` or `..`.
    Reserved,
    /// The name starts with `-`.
    LeadingDash,
    /// The name holds this character, the first that is not allowed.
    InvalidCharacter(char),
}

/// A name that is refused: its fault, and what the user is told of it.
#[derive(Debug)]
pub struct NameError {
    pub fault: NameFault,
    pub message: String,
}

/// Characters that no name may hold: path separators, white space, shell
/// patterns and control characters.
pub open spec fn forbidden(c: char) -> bool {
    ||| c == '/'
    ||| c == '\\'
    ||| c == ' '
    ||| c == '\t'
    ||| c == '\n'
    ||| c == '\r'
    ||| c == '*'
    ||| c == '?'
    ||| c == '['
    ||| c == ']'
    ||| c == '{'
    ||| c == '}'
    ||| is_control(c)
}

/// Names that pools and clones may bear: not empty, neither `.` nor `..`, without
/// a dash at the start and without a forbidden character.
pub open spec fn valid_name(name: Seq<char>) -> bool {
    &&& name.len() > 0
    &&& name != seq!['.']
    &&& name != seq!['.', '.']
    &&& name[0] != '-'
    &&& forall|i: int| 0 <= i < name.len() ==> !forbidden(#[trigger] name[i])
}

/// The fault that is reported for a name.
pub open spec fn reported(name: Seq<char>, fault: NameFault) -> bool {
    let reserved = name == seq!['.'] || name == seq!['.', '.'];
    match fault {
        NameFault::Empty => name.len() == 0,
        NameFault::Reserved => reserved,
        NameFault::LeadingDash => name.len() > 0 && name[0] == '-',
        NameFault::InvalidCharacter(c) => {
            &&& name.len() > 0 && !reserved && name[0] != '-'
            &&& exists|i: int|
                {
                    &&& 0 <= i < name.len() && #[trigger] name[i] == c && forbidden(c)
                    &&& forall|j: int| 0 <= j < i ==> !forbidden(#[trigger] name[j])
                }
        },
    }
}

fn forbidden_char(c: char) -> (r: bool)
    ensures
        r == forbidden(c),
{
    c == '/' || c == '\\' || c == ' ' || c == '\t' || c == '\n' || c == '\r' || c == '*' || c
        == '?' || c == '[' || c == ']' || c == '{' || c == '}' || control_char(c)
}

/// The fault of a name, if it has one.
pub fn name_fault(name: &str) -> (r: Option<NameFault>)
    ensures
        r is None == valid_name(name@),
        r matches Some(fault) ==> reported(name@, fault),
{
    let chars = to_chars(name);
    let n = chars.len();
    if n == 0 {
        return Some(NameFault::Empty);
    }
    if n == 1 && chars[0] == '.' {
        assert(name@ =~= seq!['.']);
        return Some(NameFault::Reserved);
    }
    if n == 2 && chars[0] == '.' && chars[1] == '.' {
        assert(name@ =~= seq!['.', '.']);
        return Some(NameFault::Reserved);
    }
    if chars[0] == '-' {
        return Some(NameFault::LeadingDash);
    }
    for i in 0..n
        invariant
            n == chars@.len(),
            chars@ == name@,
            n > 0,
            name@ != seq!['.'],
            name@ != seq!['.', '.'],
            name@[0] != '-',
            forall|j: int| 0 <= j < i ==> !forbidden(#[trigger] name@[j]),
    {
        let c = chars[i];
        if forbidden_char(c) {
            assert(name@[i as int] == c);
            return Some(NameFault::InvalidCharacter(c));
        }
    }
    None
}

/// Checks that a name is safe as a component of a path and in a shell; `kind` says
/// what is to bear the name.
pub fn validate_name(name: &str, kind: &str) -> (r: Result<(), NameError>)
    ensures
        r is Ok == valid_name(name@),
        r matches Err(e) ==> reported(name@, e.fault) && e.message@ == e.fault.text(name@, kind@),
{
    match name_fault(name) {
        Some(fault) => Err(NameError { fault, message: fault.message(name, kind) }),
        None => Ok(()),
    }
}

impl NameFault {
    /// What the user is told of the fault.
    pub open spec fn text(self, name: Seq<char>, kind: Seq<char>) -> Seq<char> {
        match self {
            NameFault::Empty => kind + " name cannot be empty"@,
            NameFault::Reserved => kind + " name cannot be '"@ + name + "' "@,
            NameFault::LeadingDash => kind + " name '"@ + name + "' must not start with '-'"@,
            NameFault::InvalidCharacter(c) => kind + " name '"@ + name
                + "' contains invalid character '"@ + escaped(c) + "'"@,
        }
    }

    /// What the user is told of the fault; `kind` says what bears the name.
    pub fn message(&self, name: &str, kind: &str) -> (r: String)
        ensures
            r@ == self.text(name@, kind@),
    {
        let mut r = kind.to_owned();
        match self {
            NameFault::Empty => {
                r.append(" name cannot be empty");
            },
            NameFault::Reserved => {
                r.append(" name cannot be '");
                r.append(name);
                r.append("' ");
            },
            NameFault::LeadingDash => {
                r.append(" name '");
                r.append(name);
                r.append("' must not start with '-'");
            },
            NameFault::InvalidCharacter(c) => {
                r.append(" name '");
                r.append(name);
                r.append("' contains invalid character '");
                r.append(escape(*c).as_str());
                r.append("'");
            },
        }
        r
    }
}

/// A fault is reported only of a name that is not valid, and only one of each name.
pub proof fn law_one_fault(name: Seq<char>, a: NameFault, b: NameFault)
    requires
        reported(name, a),
        reported(name, b),
    ensures
        a == b,
        !valid_name(name),
{
    match (a, b) {
        (NameFault::InvalidCharacter(c), NameFault::InvalidCharacter(d)) => {
            let i = choose|i: int|
                {
                    &&& 0 <= i < name.len() && #[trigger] name[i] == c && forbidden(c)
                    &&& forall|j: int| 0 <= j < i ==> !forbidden(#[trigger] name[j])
                };
            let k = choose|i: int|
                {
                    &&& 0 <= i < name.len() && #[trigger] name[i] == d && forbidden(d)
                    &&& forall|j: int| 0 <= j < i ==> !forbidden(#[trigger] name[j])
                };
            assert(forbidden(name[i]) && forbidden(name[k]));
            assert(i == k);
        },
        (NameFault::InvalidCharacter(c), _) => {},
        (_, NameFault::InvalidCharacter(d)) => {},
        _ => {},
    }
}

/// A valid name is safe as a component of a path: below any directory it leads to
/// exactly one place further down, which bears the name.
pub proof fn law_valid_name_is_component(base: Seq<char>, name: Seq<char>)
    requires
        valid_name(name),
    ensures
        plain_name(name),
        components(crate::path::join(base, name)) == components(base).push(name),
        crate::path::file_name_of(crate::path::join(base, name)) == Some(name),
{
    assert(!name.contains('/')) by {
        if name.contains('/') {
            let i = choose|i: int| 0 <= i < name.len() && name[i] == '/';
            assert(forbidden(name[i]));
        }
    }
    law_join_adds_component(base, name);
    law_join_names_place(base, name);
}

/// The directories of two pools with valid names lie in each other only if it is
/// one pool.
pub proof fn law_pool_dirs_apart(config: ConfigView, a: Seq<char>, b: Seq<char>)
    requires
        valid_name(a),
        valid_name(b),
    ensures
        within(pool_place(config, a), pool_place(config, b)) <==> a == b,
        within(pool_place(config, a), config.root),
{
    law_valid_name_is_component(config.root, a);
    law_valid_name_is_component(config.root, b);
    law_siblings_apart(config.root, a, b);
}

/// Which names pools and clones may bear: those that are not empty, that are neither
/// `.` nor `..`, that do not begin with a dash, and that hold neither a separator of
/// paths, nor white space or a pattern of the shell, nor a control character.
pub proof fn law_valid_names(name: Seq<char>)
    ensures
        valid_name(name) <==> {
            &&& name.len() > 0
            &&& name != "."@
            &&& name != ".."@
            &&& name[0] != '-'
            &&& !exists|c: char|
                #[trigger] name.contains(c) && ("/\\ \t\n\r*?[]{}"@.contains(c) || c as u32 <= 0x1f || 0x7f
                    <= c as u32 <= 0x9f)
        },
{
    reveal_strlit(".");
    reveal_strlit("..");
    reveal_strlit("/\\ \t\n\r*?[]{}");
    assert("."@ =~= seq!['.']);
    assert(".."@ =~= seq!['.', '.']);
    let bad = "/\\ \t\n\r*?[]{}"@;
    assert(bad.len() == 12);
    assert(bad[0] == '/' && bad[1] == '\\' && bad[2] == ' ' && bad[3] == '\t' && bad[4] == '\n' && bad[5]
        == '\r' && bad[6] == '*' && bad[7] == '?' && bad[8] == '[' && bad[9] == ']' && bad[10] == '{'
        && bad[11] == '}');
    assert forall|c: char| #[trigger] forbidden(c) implies bad.contains(c) || c as u32 <= 0x1f || 0x7f
        <= c as u32 <= 0x9f by {
        if c == '/' {
            assert(bad[0] == c);
        } else if c == '\\' {
            assert(bad[1] == c);
        } else if c == ' ' {
            assert(bad[2] == c);
        } else if c == '*' {
            assert(bad[6] == c);
        } else if c == '?' {
            assert(bad[7] == c);
        } else if c == '[' {
            assert(bad[8] == c);
        } else if c == ']' {
            assert(bad[9] == c);
        } else if c == '{' {
            assert(bad[10] == c);
        } else if c == '}' {
            assert(bad[11] == c);
        }
    }
    assert forall|c: char|
        bad.contains(c) || c as u32 <= 0x1f || 0x7f <= c as u32 <= 0x9f implies #[trigger] forbidden(
        c,
    ) by {
        if bad.contains(c) {
            let i = choose|i: int| 0 <= i < bad.len() && bad[i] == c;
            if i < 6 {
                assert(i == 0 || i == 1 || i == 2 || i == 3 || i == 4 || i == 5);
            } else {
                assert(i == 6 || i == 7 || i == 8 || i == 9 || i == 10 || i == 11);
            }
        }
    }
    if valid_name(name) {
        assert forall|c: char| #[trigger] name.contains(c) implies !forbidden(c) by {
            let i = choose|i: int| 0 <= i < name.len() && name[i] == c;
            assert(!forbidden(name[i]));
        }
    } else if name.len() > 0 && name != "."@ && name != ".."@ && name[0] != '-' {
        let i = choose|i: int| 0 <= i < name.len() && forbidden(#[trigger] name[i]);
        assert(name.contains(name[i]));
    }
}

/// What is said of a name that is refused names it and what is to bear it, and shows the
/// character that is wrong with it.
pub proof fn law_fault_words(name: Seq<char>, kind: Seq<char>, c: char)
    ensures
        NameFault::Empty.text(name, kind) == kind + " name cannot be empty"@,
        NameFault::Reserved.text(name, kind) == kind + " name cannot be '"@ + name + "' "@,
        NameFault::LeadingDash.text(name, kind) == kind + " name '"@ + name
            + "' must not start with '-'"@,
        NameFault::InvalidCharacter(c).text(name, kind) == kind + " name '"@ + name
            + "' contains invalid character '"@ + escaped(c) + "'"@,
{
}

} // verus!
