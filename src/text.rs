//! The text of locations, paths and findings.

use vstd::prelude::*;
use vstd::string::*;

use crate::analyzer::{AuditReport, DepPath, PointModel};
use crate::summaries::SourceLocation;

verus! {

/// The character of a decimal digit.
pub open spec fn digit_char(d: nat) -> char {
    if d == 0 { '0' } else if d == 1 { '1' } else if d == 2 { '2' } else if d == 3 { '3' } else if d == 4 { '4' }
    else if d == 5 { '5' } else if d == 6 { '6' } else if d == 7 { '7' } else if d == 8 { '8' } else { '9' }
}

/// The decimal numeral of `n`, without leading zeros.
pub open spec fn decimal(n: nat) -> Seq<char>
    decreases n,
{
    if n < 10 {
        seq![digit_char(n)]
    } else {
        decimal(n / 10) + seq![digit_char(n % 10)]
    }
}

/// `file:line`.
pub open spec fn location_text(file: Seq<char>, line: usize) -> Seq<char> {
    file + seq![':'] + decimal(line as nat)
}

/// One line per point: `-> name at file:line`.
pub open spec fn path_text(pts: Seq<PointModel>) -> Seq<char>
    decreases pts.len(),
{
    if pts.len() == 0 {
        Seq::empty()
    } else {
        let (name, file, line) = pts.last();
        path_text(pts.drop_last()) + seq!['-', '>', ' '] + name + seq![' ', 'a', 't', ' '] + location_text(file, line)
            + seq!['\n']
    }
}

fn digit_str(d: usize) -> (r: &'static str)
    requires
        d < 10,
    ensures
        r@ == seq![digit_char(d as nat)],
{
    proof {
        reveal_strlit("0");
        reveal_strlit("1");
        reveal_strlit("2");
        reveal_strlit("3");
        reveal_strlit("4");
        reveal_strlit("5");
        reveal_strlit("6");
        reveal_strlit("7");
        reveal_strlit("8");
        reveal_strlit("9");
    }
    let r = if d == 0 { "0" } else if d == 1 { "1" } else if d == 2 { "2" } else if d == 3 { "3" } else if d == 4 { "4" }
        else if d == 5 { "5" } else if d == 6 { "6" } else if d == 7 { "7" } else if d == 8 { "8" } else { "9" };
    assert(r@ =~= seq![digit_char(d as nat)]);
    r
}

/// The decimal numeral of `n`.
pub fn decimal_text(n: usize) -> (r: String)
    ensures
        r@ == decimal(n as nat),
    decreases n,
{
    if n < 10 {
        String::from_str(digit_str(n))
    } else {
        let mut s = decimal_text(n / 10);
        s.append(digit_str(n % 10));
        s
    }
}

impl SourceLocation {
    /// `file:line`.
    pub fn to_string(&self) -> (r: String)
        ensures
            r@ == location_text(self.file@, self.line_no),
    {
        proof {
            reveal_strlit(":");
            assert(":"@ =~= seq![':']);
        }
        let mut s = self.file.clone();
        s.append(":");
        let d = decimal_text(self.line_no);
        s.append(d.as_str());
        s
    }
}

impl DepPath {
    /// One line per point: `-> name at file:line`.
    pub fn to_string(&self) -> (r: String)
        ensures
            r@ == path_text(self@),
    {
        proof {
            reveal_strlit("-> ");
            reveal_strlit(" at ");
            reveal_strlit("\n");
            assert("-> "@ =~= seq!['-', '>', ' ']);
            assert(" at "@ =~= seq![' ', 'a', 't', ' ']);
            assert("\n"@ =~= seq!['\n']);
        }
        let mut s = String::new();
        let mut i: usize = 0;
        while i < self.path.len()
            invariant
                i <= self.path.len(),
                "-> "@ == seq!['-', '>', ' '],
                " at "@ == seq![' ', 'a', 't', ' '],
                "\n"@ == seq!['\n'],
                s@ == path_text(self@.take(i as int)),
            decreases self.path.len() - i,
        {
            let ghost before = s@;
            s.append("-> ");
            s.append(self.path[i].0.as_str());
            s.append(" at ");
            let loc = self.path[i].1.to_string();
            s.append(loc.as_str());
            s.append("\n");
            proof {
                let q = self@.take(i + 1);
                assert(q.drop_last() =~= self@.take(i as int));
                assert(q.last() == self@[i as int]);
                assert(self@[i as int] == (self.path@[i as int].0@, self.path@[i as int].1.file@, self.path@[i as int].1.line_no));
                assert(s@ =~= path_text(q));
            }
            i = i + 1;
        }
        assert(self@.take(i as int) =~= self@);
        s
    }
}

/// The warning for an unaudited path.
pub open spec fn warning_text(pts: Seq<PointModel>) -> Seq<char> {
    "Unaudited use of insecure functions:\n"@ + path_text(pts)
}

/// The note for an audited path with its escort.
pub open spec fn note_text(escort: Seq<char>, pts: Seq<PointModel>) -> Seq<char> {
    "Audited use of insecure functions:\n   "@ + escort + seq!['\n'] + path_text(pts)
}

impl AuditReport {
    /// One warning per unaudited path, in report order.
    pub fn warnings(&self) -> (r: Vec<String>)
        ensures
            r@.len() == self@.1.len(),
            forall|i: int| 0 <= i < r@.len() ==> #[trigger] r@[i]@ == warning_text(self@.1[i]),
    {
        let mut r: Vec<String> = Vec::new();
        let mut i: usize = 0;
        while i < self.unaudited.len()
            invariant
                i <= self.unaudited.len(),
                r@.len() == i,
                forall|k: int| 0 <= k < i ==> #[trigger] r@[k]@ == warning_text(self@.1[k]),
            decreases self.unaudited.len() - i,
        {
            let mut s = String::from_str("Unaudited use of insecure functions:\n");
            let p = self.unaudited[i].to_string();
            s.append(p.as_str());
            r.push(s);
            i = i + 1;
        }
        r
    }

    /// One note per audited path, naming its escort, in report order.
    pub fn notes(&self) -> (r: Vec<String>)
        ensures
            r@.len() == self@.0.len(),
            forall|i: int| 0 <= i < r@.len() ==> #[trigger] r@[i]@ == note_text(self@.0[i].0, self@.0[i].1),
    {
        proof {
            reveal_strlit("\n");
            assert("\n"@ =~= seq!['\n']);
        }
        let mut r: Vec<String> = Vec::new();
        let mut i: usize = 0;
        while i < self.audited.len()
            invariant
                i <= self.audited.len(),
                "\n"@ == seq!['\n'],
                r@.len() == i,
                forall|k: int| 0 <= k < i ==> #[trigger] r@[k]@ == note_text(self@.0[k].0, self@.0[k].1),
            decreases self.audited.len() - i,
        {
            let mut s = String::from_str("Audited use of insecure functions:\n   ");
            s.append(self.audited[i].0.as_str());
            s.append("\n");
            let p = self.audited[i].1.to_string();
            s.append(p.as_str());
            r.push(s);
            i = i + 1;
        }
        r
    }
}

} // verus!
