//! Text helpers: equality of string slices and tab-separated fields.

use vstd::prelude::*;
use vstd::string::StringSliceAdditionalSpecFns;
use vstd::utf8::encode_utf8_decode_utf8;

verus! {

/// Whether two string slices hold the same characters.
pub fn str_eq(a: &str, b: &str) -> (r: bool)
    ensures
        r == (a@ == b@),
{
    let x = a.as_bytes();
    let y = b.as_bytes();
    if x.len() != y.len() {
        return false;
    }
    let mut i: usize = 0;
    while i < x.len()
        invariant
            x@.len() == y@.len(),
            i <= x@.len(),
            x@ == a.spec_bytes(),
            y@ == b.spec_bytes(),
            forall|j: int| 0 <= j < i ==> x@[j] == y@[j],
        decreases x@.len() - i,
    {
        if x[i] != y[i] {
            return false;
        }
        i = i + 1;
    }
    proof {
        // Equal encodings decode to equal texts.
        assert(x@ =~= y@);
        encode_utf8_decode_utf8(a@);
        encode_utf8_decode_utf8(b@);
    }
    true
}

/// The positions of the tab characters of a text, in increasing order.
pub open spec fn tab_positions(s: Seq<char>) -> Seq<int>
    decreases s.len(),
{
    if s.len() == 0 {
        Seq::empty()
    } else if s.last() == '\t' {
        tab_positions(s.drop_last()).push(s.len() - 1)
    } else {
        tab_positions(s.drop_last())
    }
}

/// The number of tab-separated fields of a text: one more than its tabs.
pub open spec fn field_count(s: Seq<char>) -> nat {
    tab_positions(s).len() + 1
}

/// Where field `k` starts: at the start of the text, or after the tab before it.
pub open spec fn field_start(s: Seq<char>, k: int) -> int {
    if k == 0 {
        0
    } else {
        tab_positions(s)[k - 1] + 1
    }
}

/// Where field `k` ends: at its closing tab, or at the end of the text.
pub open spec fn field_end(s: Seq<char>, k: int) -> int {
    if k < tab_positions(s).len() {
        tab_positions(s)[k]
    } else {
        s.len() as int
    }
}

/// Field `k` of a tab-separated text, for `0 <= k < field_count(s)`.
pub open spec fn field(s: Seq<char>, k: int) -> Seq<char> {
    s.subrange(field_start(s, k), field_end(s, k))
}

/// Tab positions lie inside the text, hold tabs, and increase; every tab is
/// among them.
pub proof fn lemma_tab_positions(s: Seq<char>)
    ensures
        tab_positions(s).len() <= s.len(),
        forall|k: int|
            0 <= k < tab_positions(s).len() ==> 0 <= #[trigger] tab_positions(s)[k] < s.len()
                && s[tab_positions(s)[k]] == '\t',
        forall|j: int, k: int|
            0 <= j < k < tab_positions(s).len() ==> tab_positions(s)[j] < tab_positions(s)[k],
        forall|i: int|
            0 <= i < s.len() && s[i] == '\t' ==> tab_positions(s).contains(i),
    decreases s.len(),
{
    if s.len() > 0 {
        let front = s.drop_last();
        lemma_tab_positions(front);
        let tabs = tab_positions(s);
        if s.last() == '\t' {
            assert(tabs[tabs.len() - 1] == s.len() - 1);
        }
        assert forall|i: int| 0 <= i < s.len() && s[i] == '\t' implies tabs.contains(i) by {
            if i < s.len() - 1 {
                assert(front[i] == '\t');
                let k = choose|k: int|
                    0 <= k < tab_positions(front).len() && tab_positions(front)[k] == i;
                assert(tabs[k] == i);
            } else {
                assert(tabs[tabs.len() - 1] == i);
            }
        }
    }
}

/// The fields of a text are well-formed ranges of it.
pub proof fn lemma_field_bounds(s: Seq<char>, k: int)
    requires
        0 <= k < field_count(s),
    ensures
        0 <= field_start(s, k) <= field_end(s, k) <= s.len(),
{
    lemma_tab_positions(s);
}

/// The positions of the tabs of a line.
pub(crate) fn find_tabs(line: &str) -> (tabs: Vec<usize>)
    ensures
        tabs@.len() == tab_positions(line@).len(),
        forall|k: int| 0 <= k < tabs@.len() ==> tabs@[k] as int == tab_positions(line@)[k],
{
    let length: usize = line.unicode_len();
    let mut tabs: Vec<usize> = Vec::new();
    let mut i: usize = 0;
    for c in it: line.chars()
        invariant
            i == it.index(),
            it.seq() == line@,
            length == line@.len(),
            tabs@.len() == tab_positions(line@.take(i as int)).len(),
            forall|k: int|
                0 <= k < tabs@.len() ==> tabs@[k] as int == tab_positions(line@.take(i as int))[k],
    {
        proof {
            let before = line@.take(i as int);
            let after = line@.take(i + 1);
            assert(after.drop_last() =~= before);
            assert(after.last() == c);
        }
        if c == '\t' {
            tabs.push(i);
        }
        i = i + 1;
    }
    proof {
        assert(line@.take(i as int) =~= line@);
    }
    tabs
}

/// Field `k` of a line, given the positions of its tabs and its length in
/// characters.
pub(crate) fn nth_field<'a>(line: &'a str, tabs: &Vec<usize>, length: usize, k: usize) -> (r: &'a str)
    requires
        length == line@.len(),
        tabs@.len() == tab_positions(line@).len(),
        forall|j: int| 0 <= j < tabs@.len() ==> tabs@[j] as int == tab_positions(line@)[j],
        k < field_count(line@),
    ensures
        r@ == field(line@, k as int),
{
    proof {
        lemma_field_bounds(line@, k as int);
    }
    let start: usize = if k == 0 {
        0
    } else {
        tabs[k - 1] + 1
    };
    let end: usize = if k < tabs.len() {
        tabs[k]
    } else {
        length
    };
    line.substring_char(start, end)
}

} // verus!
