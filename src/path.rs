use vstd::prelude::*;
use vstd::string::{StrSliceExecFns, StringExecFns};
use crate::model::FileInfo;

verus! {

/// The path's first component is the current-directory marker: it is `.`
/// or starts with `./`.
pub open spec fn starts_at_pwd(s: Seq<char>) -> bool {
    s.len() >= 1 && s[0] == '.' && (s.len() == 1 || s[1] == '/')
}

/// A `.` component starts at `a`, before `b`: `.` followed by `/` or by `b`.
pub open spec fn dot_at(s: Seq<char>, a: int, b: int) -> bool {
    0 <= a < b <= s.len() && s[a] == '.' && (a + 1 == b || s[a + 1] == '/')
}

/// Start of the path left after skipping separators and `.` components from `a` on.
pub open spec fn left_end(s: Seq<char>, a: int) -> int
    decreases s.len() - a,
{
    if 0 <= a < s.len() && (s[a] == '/' || dot_at(s, a, s.len() as int)) {
        left_end(s, a + 1)
    } else {
        a
    }
}

/// End of the path before `b` after dropping trailing separators and `.`
/// components, not going below `a`.
pub open spec fn right_end(s: Seq<char>, a: int, b: int) -> int
    decreases b,
{
    if a < b && 0 < b <= s.len() && (s[b - 1] == '/' || (s[b - 1] == '.' && (b - 1 == a
        || s[b - 2] == '/'))) {
        right_end(s, a, b - 1)
    } else {
        b
    }
}

/// Start of the component that ends at `k`.
pub open spec fn segment_start(s: Seq<char>, k: int) -> int
    decreases k,
{
    if k <= 0 || k > s.len() {
        0
    } else if s[k - 1] == '/' {
        k
    } else {
        segment_start(s, k - 1)
    }
}

/// The last component of the path starts with a dot.
pub open spec fn hidden_spec(s: Seq<char>) -> bool {
    let e = right_end(s, 0, s.len() as int);
    if e == 0 {
        s.len() > 0 && s[0] == '.'
    } else {
        s[segment_start(s, e)] == '.'
    }
}

/// The path as shown: without its leading `./` (and the separators and `.`
/// components around what remains) where it starts at the current directory.
pub open spec fn pretty_spec(s: Seq<char>) -> Seq<char> {
    if starts_at_pwd(s) {
        let a = left_end(s, 1);
        s.subrange(a, right_end(s, a, s.len() as int))
    } else {
        s
    }
}

fn right_end_exec(s: &str, a: usize, b: usize) -> (r: usize)
    requires
        a <= b <= s@.len(),
    ensures
        r == right_end(s@, a as int, b as int),
        a <= r <= b,
        r > a ==> s@[r - 1] != '/',
{
    let mut e = b;
    while a < e && (s.get_char(e - 1) == '/' || (s.get_char(e - 1) == '.' && (e - 1 == a
        || s.get_char(e - 2) == '/')))
        invariant
            a <= e <= b <= s@.len(),
            right_end(s@, a as int, e as int) == right_end(s@, a as int, b as int),
        decreases e,
    {
        e = e - 1;
    }
    e
}

impl FileInfo {
    /// The last component of the path starts with a dot.
    pub fn is_hidden(&self) -> (r: bool)
        ensures
            r == hidden_spec(self.path@),
    {
        let s = self.path.as_str();
        let n = s.unicode_len();
        let e = right_end_exec(s, 0, n);
        if e == 0 {
            return n > 0 && s.get_char(0) == '.';
        }
        let mut k = e;
        while k > 0 && s.get_char(k - 1) != '/'
            invariant
                0 <= k <= e <= n == s@.len(),
                e > 0,
                s@[e - 1] != '/',
                segment_start(s@, k as int) == segment_start(s@, e as int),
            decreases k,
        {
            k = k - 1;
        }
        proof {
            assert(segment_start(s@, k as int) == k);
        }
        s.get_char(k) == '.'
    }

    /// The path's first component is the current-directory marker `.`.
    pub fn first_component_is_pwd(&self) -> (r: bool)
        ensures
            r == starts_at_pwd(self.path@),
    {
        let s = self.path.as_str();
        let n = s.unicode_len();
        n >= 1 && s.get_char(0) == '.' && (n == 1 || s.get_char(1) == '/')
    }

    /// The path relative to the current directory where it starts there,
    /// otherwise the path as it is.
    pub fn pretty_path(&self) -> (r: &str)
        ensures
            r@ == pretty_spec(self.path@),
    {
        let s = self.path.as_str();
        if !self.first_component_is_pwd() {
            return s;
        }
        let n = s.unicode_len();
        let mut a: usize = 1;
        while a < n && (s.get_char(a) == '/' || (s.get_char(a) == '.' && (a + 1 == n || s.get_char(
            a + 1,
        ) == '/')))
            invariant
                1 <= a <= n == s@.len(),
                left_end(s@, a as int) == left_end(s@, 1),
            decreases n - a,
        {
            a = a + 1;
        }
        let b = right_end_exec(s, a, n);
        s.substring_char(a, b)
    }
}

} // verus!
