use vstd::prelude::*;
use crate::text::{is_white_space, string_of, white_space};

verus! {

broadcast use vstd::string::group_string_axioms;

/// The characters of `s` without leading and trailing white space, as
/// `str::trim` returns them.
pub open spec fn trimmed(s: Seq<char>) -> Seq<char> {
    if forall|i: int| 0 <= i < s.len() ==> is_white_space(#[trigger] s[i]) {
        Seq::empty()
    } else {
        let a = choose|a: int|
            0 <= a < s.len() && !is_white_space(s[a]) && forall|j: int|
                0 <= j < a ==> is_white_space(#[trigger] s[j]);
        let b = choose|b: int|
            0 <= b < s.len() && !is_white_space(s[b]) && forall|j: int|
                b < j < s.len() ==> is_white_space(#[trigger] s[j]);
        s.subrange(a, b + 1)
    }
}

proof fn lemma_trimmed(s: Seq<char>, a: int, b: int)
    requires
        0 <= a <= b < s.len(),
        !is_white_space(s[a]),
        !is_white_space(s[b]),
        forall|j: int| 0 <= j < a ==> is_white_space(#[trigger] s[j]),
        forall|j: int| b < j < s.len() ==> is_white_space(#[trigger] s[j]),
    ensures
        trimmed(s) == s.subrange(a, b + 1),
{
    assert(!is_white_space(s[a]));
    let a2 = choose|a: int|
        0 <= a < s.len() && !is_white_space(s[a]) && forall|j: int|
            0 <= j < a ==> is_white_space(#[trigger] s[j]);
    let b2 = choose|b: int|
        0 <= b < s.len() && !is_white_space(s[b]) && forall|j: int|
            b < j < s.len() ==> is_white_space(#[trigger] s[j]);
    assert(0 <= a2 < s.len() && !is_white_space(s[a2]));
    assert(0 <= b2 < s.len() && !is_white_space(s[b2]));
    if a2 < a {
        assert(is_white_space(s[a2]));
    }
    if a2 > a {
        assert(is_white_space(s[a]));
    }
    if b2 < b {
        assert(is_white_space(s[b]));
    }
    if b2 > b {
        assert(is_white_space(s[b2]));
    }
}

/// `s` without leading and trailing white space.
pub fn trim(s: &str) -> (res: &str)
    ensures
        res@ == trimmed(s@),
{
    let n = s.unicode_len();
    let mut a: usize = 0;
    while a < n && white_space(s.get_char(a))
        invariant
            n == s@.len(),
            0 <= a <= n,
            forall|j: int| 0 <= j < a ==> is_white_space(#[trigger] s@[j]),
        decreases n - a,
    {
        a = a + 1;
    }
    if a == n {
        let empty = s.substring_char(0, 0);
        assert(empty@ =~= trimmed(s@));
        return empty;
    }
    let mut b: usize = n - 1;
    while b > a && white_space(s.get_char(b))
        invariant
            n == s@.len(),
            a < n,
            !is_white_space(s@[a as int]),
            a <= b < n,
            forall|j: int| b < j < n ==> is_white_space(#[trigger] s@[j]),
        decreases b,
    {
        b = b - 1;
    }
    proof {
        lemma_trimmed(s@, a as int, b as int);
    }
    s.substring_char(a, b + 1)
}

/// What a line typed at the admin console asks for.
#[derive(Debug, PartialEq, Eq)]
pub enum AdminCommand {
    /// Nothing to do.
    Skip,
    /// Print the chain and the pool.
    Print,
    /// Stop the node and close the console.
    Stop,
    /// Submit a transaction with this text.
    Trx(String),
}

/// What a console line asks for, in terms of characters.
pub ghost enum AdminAction {
    Skip,
    Print,
    Stop,
    Trx(Seq<char>),
}

/// The command a console line stands for: after trimming, `print`, `stop`,
/// or `trx ` followed by a text that is not blank (trimmed); anything else,
/// blank lines included, is skipped.
pub open spec fn admin_command(line: Seq<char>) -> AdminAction {
    let cmd = trimmed(line);
    if cmd == "print"@ {
        AdminAction::Print
    } else if cmd == "stop"@ {
        AdminAction::Stop
    } else if cmd.len() >= 4 && cmd.take(4) == "trx "@ && trimmed(cmd.skip(4)).len() > 0 {
        AdminAction::Trx(trimmed(cmd.skip(4)))
    } else {
        AdminAction::Skip
    }
}

/// Reads one console line.
pub fn parse_admin_line(line: &str) -> (res: AdminCommand)
    ensures
        match admin_command(line@) {
            AdminAction::Skip => res == AdminCommand::Skip,
            AdminAction::Print => res == AdminCommand::Print,
            AdminAction::Stop => res == AdminCommand::Stop,
            AdminAction::Trx(text) => res matches AdminCommand::Trx(t) && t@ == text,
        },
{
    let cmd = trim(line);
    if cmd.unicode_len() == 0 {
        proof {
            reveal_strlit("print");
            reveal_strlit("stop");
        }
        return AdminCommand::Skip;
    }
    if crate::cli::str_eq(cmd, "print") {
        return AdminCommand::Print;
    }
    if crate::cli::str_eq(cmd, "stop") {
        return AdminCommand::Stop;
    }
    let n = cmd.unicode_len();
    if n >= 4 {
        let head = cmd.substring_char(0, 4);
        assert(head@ =~= cmd@.take(4));
        if crate::cli::str_eq(head, "trx ") {
            let rest = cmd.substring_char(4, n);
            assert(rest@ =~= cmd@.skip(4));
            let text = trim(rest);
            if text.unicode_len() == 0 {
                return AdminCommand::Skip;
            }
            return AdminCommand::Trx(string_of(text));
        }
    }
    AdminCommand::Skip
}

} // verus!
