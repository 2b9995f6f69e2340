use vstd::prelude::*;
use vstd::std_specs::iter::IteratorSpec;

verus! {

/// Code generation effort asked of the backend.
#[derive(Debug, Clone, Copy, PartialEq, Eq)]
pub enum OptLevel {
    Zero,
    Less,
    Default,
    Aggressive,
}

/// How the emitted code may be relocated.
#[derive(Debug, Clone, Copy, PartialEq, Eq)]
pub enum RelocMode {
    Default,
    Static,
    Pic,
}

/// The code model of the emitted code.
#[derive(Debug, Clone, Copy, PartialEq, Eq)]
pub enum CodeModel {
    Default,
    Small,
    Medium,
    Large,
}

/// The settings of the target machine that serialises a module.
#[derive(Debug, Clone, PartialEq, Eq)]
pub struct TargetOptions {
    pub triple: String,
    pub cpu: String,
    pub features: String,
    pub opt_level: OptLevel,
    pub reloc: RelocMode,
    pub code_model: CodeModel,
}

impl TargetOptions {
    /// The settings used for every compilation: a generic CPU, no extra
    /// features, aggressive optimisation, position-independent code and the
    /// default code model.
    pub fn new(triple: String) -> (r: TargetOptions)
        ensures
            r.triple@ == triple@,
            r.cpu@ == "generic"@,
            r.features@ == Seq::<char>::empty(),
            r.opt_level == OptLevel::Aggressive,
            r.reloc == RelocMode::Pic,
            r.code_model == CodeModel::Default,
    {
        TargetOptions {
            triple,
            cpu: String::from_str("generic"),
            features: String::new(),
            opt_level: OptLevel::Aggressive,
            reloc: RelocMode::Pic,
            code_model: CodeModel::Default,
        }
    }
}

pub open spec fn is_blank(c: char) -> bool {
    c == ' ' || c == '\t' || c == '\r'
}

/// The first index at or after `k` (up to `end`) whose character is blank
/// when `blank` holds, or not blank otherwise; `end` where there is none.
pub open spec fn scan(s: Seq<char>, k: int, end: int, blank: bool) -> int
    decreases end - k,
{
    if k >= end {
        end
    } else if is_blank(s[k]) == blank {
        k
    } else {
        scan(s, k + 1, end, blank)
    }
}

/// The end of the line that holds index `k`: the next newline, or the end.
pub open spec fn line_end(s: Seq<char>, k: int) -> int
    decreases s.len() - k,
{
    if k >= s.len() {
        s.len() as int
    } else if s[k] == '\n' {
        k
    } else {
        line_end(s, k + 1)
    }
}

/// A line begins at `i` and starts with the word `Target`.
pub open spec fn is_target_line(s: Seq<char>, i: int) -> bool {
    &&& 0 <= i <= s.len()
    &&& (i == 0 || s[i - 1] == '\n')
    &&& i + 6 <= s.len()
    &&& s.subrange(i, i + 6) == "Target"@
}

pub open spec fn is_first_target_line(s: Seq<char>, i: int) -> bool {
    &&& is_target_line(s, i)
    &&& forall|j: int| 0 <= j < i ==> !is_target_line(s, j)
}

/// The second blank-separated field of the line `s[i..e]`, if not empty.
pub open spec fn second_field(s: Seq<char>, i: int, e: int) -> Option<Seq<char>> {
    let a = scan(s, i, e, true);
    let b = scan(s, a, e, false);
    let c = scan(s, b, e, true);
    if b < c {
        Some(s.subrange(b, c))
    } else {
        None
    }
}

/// The host target triple named by a toolchain's version banner: the second
/// field of the first line that begins with `Target`.
pub open spec fn triple_of(s: Seq<char>) -> Option<Seq<char>> {
    if exists|i: int| is_first_target_line(s, i) {
        let i = choose|i: int| is_first_target_line(s, i);
        second_field(s, i, line_end(s, i))
    } else {
        None
    }
}

/// The characters of `s`, in order.
pub(crate) fn chars_of(s: &str) -> (r: Vec<char>)
    ensures
        r@ == s@,
{
    broadcast use vstd::string::axiom_spec_iter, vstd::string::next_postcondition;

    let mut it = s.chars();
    let mut r: Vec<char> = Vec::new();
    assert(r@ + IteratorSpec::remaining(&it) =~= s@);
    loop
        invariant
            r@ + IteratorSpec::remaining(&it) == s@,
            it.obeys_prophetic_iter_laws(),
        ensures
            r@ == s@,
        decreases s@.len() - r@.len(),
    {
        let ghost before = IteratorSpec::remaining(&it);
        match it.next() {
            Some(c) => {
                r.push(c);
                assert(r@ + IteratorSpec::remaining(&it) =~= s@) by {
                    assert(before =~= seq![c] + before.drop_first());
                }
            },
            None => {
                assert(r@ =~= s@);
                break;
            },
        }
    }
    r
}

fn scan_exec(s: &Vec<char>, k: usize, end: usize, blank: bool) -> (r: usize)
    requires
        k <= end <= s.len(),
    ensures
        r == scan(s@, k as int, end as int, blank),
        k <= r <= end,
{
    let mut j = k;
    while j < end && ((s[j] == ' ' || s[j] == '\t' || s[j] == '\r') != blank)
        invariant
            k <= j <= end <= s.len(),
            scan(s@, j as int, end as int, blank) == scan(s@, k as int, end as int, blank),
        decreases end - j,
    {
        j = j + 1;
    }
    j
}

fn line_end_exec(s: &Vec<char>, k: usize) -> (r: usize)
    requires
        k <= s.len(),
    ensures
        r == line_end(s@, k as int),
        k <= r <= s.len(),
{
    let mut j = k;
    while j < s.len() && s[j] != '\n'
        invariant
            k <= j <= s.len(),
            line_end(s@, j as int) == line_end(s@, k as int),
        decreases s.len() - j,
    {
        j = j + 1;
    }
    j
}

fn starts_target(s: &Vec<char>, i: usize) -> (r: bool)
    requires
        i <= s.len(),
    ensures
        r == (i + 6 <= s.len() && s@.subrange(i as int, i + 6) == "Target"@),
{
    proof {
        reveal_strlit("Target");
    }
    if s.len() - i < 6 {
        return false;
    }
    let r = s[i] == 'T' && s[i + 1] == 'a' && s[i + 2] == 'r' && s[i + 3] == 'g' && s[i + 4] == 'e'
        && s[i + 5] == 't';
    if r {
        assert(s@.subrange(i as int, i + 6) =~= "Target"@);
    } else {
        assert(s@.subrange(i as int, i + 6) != "Target"@) by {
            if s@.subrange(i as int, i + 6) == "Target"@ {
                assert(s@.subrange(i as int, i + 6)[0] == 'T');
                assert(s@.subrange(i as int, i + 6)[1] == 'a');
                assert(s@.subrange(i as int, i + 6)[2] == 'r');
                assert(s@.subrange(i as int, i + 6)[3] == 'g');
                assert(s@.subrange(i as int, i + 6)[4] == 'e');
                assert(s@.subrange(i as int, i + 6)[5] == 't');
            }
        }
    }
    r
}

/// Finds the host target triple in the output of a toolchain's version
/// query: the second field of the first line that begins with `Target`.
pub fn target_triple_from_version(output: &str) -> (r: Option<String>)
    ensures
        match r {
            Some(t) => triple_of(output@) == Some(t@),
            None => triple_of(output@) is None,
        },
{
    let s = chars_of(output);
    let n = s.len();
    let mut i: usize = 0;
    loop
        invariant
            n == s.len(),
            s@ == output@,
            forall|j: int| 0 <= j < i && j <= n ==> !is_target_line(s@, j),
            i <= n,
            i == 0 || s@[i - 1] == '\n',
        ensures
            forall|j: int| 0 <= j <= n ==> !is_target_line(s@, j),
        decreases n + 1 - i,
    {
        if starts_target(&s, i) {
            assert(is_first_target_line(s@, i as int));
            assert forall|k: int| is_first_target_line(s@, k) implies k == i by {
                if k > i {
                    assert(is_target_line(s@, i as int));
                }
            }
            let e = line_end_exec(&s, i);
            let a = scan_exec(&s, i, e, true);
            let b = scan_exec(&s, a, e, false);
            let c = scan_exec(&s, b, e, true);
            if b < c {
                let t = output.substring_char(b, c).to_owned();
                return Some(t);
            } else {
                return None;
            }
        }
        let e = line_end_exec(&s, i);
        assert forall|j: int| i < j <= e implies !is_target_line(s@, j) by {
            lemma_no_newline_before_line_end(s@, i as int, j);
        }
        if e >= n {
            break;
        }
        proof {
            lemma_line_end_is_newline(s@, i as int);
        }
        i = e + 1;
    }
    assert(!exists|k: int| is_first_target_line(s@, k));
    None
}

proof fn lemma_line_end_is_newline(s: Seq<char>, k: int)
    requires
        0 <= k,
        line_end(s, k) < s.len(),
    ensures
        s[line_end(s, k)] == '\n',
    decreases s.len() - k,
{
    if k < s.len() && s[k] != '\n' {
        lemma_line_end_is_newline(s, k + 1);
    }
}

proof fn lemma_no_newline_before_line_end(s: Seq<char>, k: int, j: int)
    requires
        0 <= k < j <= line_end(s, k),
    ensures
        s[j - 1] != '\n',
    decreases s.len() - k,
{
    if k < s.len() && s[k] != '\n' && j - 1 > k {
        lemma_no_newline_before_line_end(s, k + 1, j);
    }
}

} // verus!
