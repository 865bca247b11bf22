//! Line diffs, from the longest common subsequence of two texts.
use vstd::prelude::*;
use crate::text::{char_lines, chars_of, split_char, split_on_char, string_from_chars};

verus! {

/// Length of the longest common subsequence of the first `i` lines of `x`
/// and the first `j` lines of `y`.
pub open spec fn lcs_len(x: Seq<Seq<char>>, y: Seq<Seq<char>>, i: nat, j: nat) -> nat
    decreases i + j,
{
    if i == 0 || j == 0 {
        0
    } else if x[i - 1] == y[j - 1] {
        lcs_len(x, y, (i - 1) as nat, (j - 1) as nat) + 1
    } else {
        let a = lcs_len(x, y, i, (j - 1) as nat);
        let b = lcs_len(x, y, (i - 1) as nat, j);
        if a >= b {
            a
        } else {
            b
        }
    }
}

pub proof fn lemma_lcs_bound(x: Seq<Seq<char>>, y: Seq<Seq<char>>, i: nat, j: nat)
    ensures
        lcs_len(x, y, i, j) <= i,
    decreases i + j,
{
    if i > 0 && j > 0 {
        if x[i - 1] == y[j - 1] {
            lemma_lcs_bound(x, y, (i - 1) as nat, (j - 1) as nat);
        } else {
            lemma_lcs_bound(x, y, i, (j - 1) as nat);
            lemma_lcs_bound(x, y, (i - 1) as nat, j);
        }
    }
}

/// A line of a diff: in both texts, only in the second, or only in the
/// first.
pub enum DiffOp {
    Common(Seq<char>),
    Added(Seq<char>),
    Removed(Seq<char>),
}

/// The diff of the first `i` lines of `x` and the first `j` lines of `y`,
/// read back from the table of longest common subsequences: a common last
/// line is kept; else the last line of `y` is added when that keeps the
/// longest common subsequence, and otherwise the last line of `x` is
/// removed.
pub open spec fn diff_ops(x: Seq<Seq<char>>, y: Seq<Seq<char>>, i: nat, j: nat) -> Seq<DiffOp>
    decreases i + j,
{
    if i > 0 && j > 0 && x[i - 1] == y[j - 1] {
        diff_ops(x, y, (i - 1) as nat, (j - 1) as nat).push(DiffOp::Common(x[i - 1]))
    } else if j > 0 && (i == 0 || lcs_len(x, y, i, (j - 1) as nat) >= lcs_len(x, y, (i - 1) as nat, j)) {
        diff_ops(x, y, i, (j - 1) as nat).push(DiffOp::Added(y[j - 1]))
    } else if i > 0 {
        diff_ops(x, y, (i - 1) as nat, j).push(DiffOp::Removed(x[i - 1]))
    } else {
        seq![]
    }
}

/// The text of a diff line: common lines as they are, added ones after
/// `>>>>>>> ` and removed ones after `<<<<<<< `, each with a line break.
pub open spec fn diff_line(op: DiffOp) -> Seq<char> {
    match op {
        DiffOp::Common(l) => l + seq!['\n'],
        DiffOp::Added(l) => ">>>>>>> "@ + l + seq!['\n'],
        DiffOp::Removed(l) => "<<<<<<< "@ + l + seq!['\n'],
    }
}

/// The lines of the first text that a diff keeps: the common and the
/// removed ones.
pub open spec fn first_side(ops: Seq<DiffOp>) -> Seq<Seq<char>>
    decreases ops.len(),
{
    if ops.len() == 0 {
        seq![]
    } else {
        match ops.last() {
            DiffOp::Common(l) => first_side(ops.drop_last()).push(l),
            DiffOp::Removed(l) => first_side(ops.drop_last()).push(l),
            DiffOp::Added(_) => first_side(ops.drop_last()),
        }
    }
}

/// The lines of the second text that a diff keeps: the common and the
/// added ones.
pub open spec fn second_side(ops: Seq<DiffOp>) -> Seq<Seq<char>>
    decreases ops.len(),
{
    if ops.len() == 0 {
        seq![]
    } else {
        match ops.last() {
            DiffOp::Common(l) => second_side(ops.drop_last()).push(l),
            DiffOp::Added(l) => second_side(ops.drop_last()).push(l),
            DiffOp::Removed(_) => second_side(ops.drop_last()),
        }
    }
}

/// A diff gives both texts back: its common and removed lines are the
/// first text, its common and added lines the second.
pub proof fn law_diff_gives_both_texts(x: Seq<Seq<char>>, y: Seq<Seq<char>>, i: nat, j: nat)
    requires
        i <= x.len(),
        j <= y.len(),
    ensures
        first_side(diff_ops(x, y, i, j)) == x.take(i as int),
        second_side(diff_ops(x, y, i, j)) == y.take(j as int),
    decreases i + j,
{
    if i > 0 && j > 0 && x[i - 1] == y[j - 1] {
        let ops = diff_ops(x, y, (i - 1) as nat, (j - 1) as nat);
        let op = DiffOp::Common(x[i - 1]);
        assert(ops.push(op).drop_last() == ops);
        law_diff_gives_both_texts(x, y, (i - 1) as nat, (j - 1) as nat);
        assert(x.take(i as int) == x.take(i - 1).push(x[i - 1]));
        assert(y.take(j as int) == y.take(j - 1).push(y[j - 1]));
    } else if j > 0 && (i == 0 || lcs_len(x, y, i, (j - 1) as nat) >= lcs_len(x, y, (i - 1) as nat, j)) {
        let ops = diff_ops(x, y, i, (j - 1) as nat);
        let op = DiffOp::Added(y[j - 1]);
        assert(ops.push(op).drop_last() == ops);
        law_diff_gives_both_texts(x, y, i, (j - 1) as nat);
        assert(y.take(j as int) == y.take(j - 1).push(y[j - 1]));
    } else if i > 0 {
        let ops = diff_ops(x, y, (i - 1) as nat, j);
        let op = DiffOp::Removed(x[i - 1]);
        assert(ops.push(op).drop_last() == ops);
        law_diff_gives_both_texts(x, y, (i - 1) as nat, j);
        assert(x.take(i as int) == x.take(i - 1).push(x[i - 1]));
    } else {
        assert(x.take(0) == Seq::<Seq<char>>::empty());
        assert(y.take(0) == Seq::<Seq<char>>::empty());
    }
}

/// The strings of a vector as character sequences.
pub open spec fn string_lines(v: Seq<String>) -> Seq<Seq<char>> {
    v.map_values(|s: String| s@)
}

/// Computes the table of the lengths of the longest common subsequences.
fn compute_longest_common_subsequence_matrix(a: &Vec<String>, b: &Vec<String>) -> (matrix: Vec<Vec<usize>>)
    ensures
        matrix@.len() == a@.len() + 1,
        forall|i: int| 0 <= i <= a@.len() ==> (#[trigger] matrix@[i])@.len() == b@.len() + 1,
        forall|i: int, j: int|
            #![trigger matrix@[i]@[j]]
            0 <= i <= a@.len() && 0 <= j <= b@.len() ==> matrix@[i]@[j] == lcs_len(
                string_lines(a@),
                string_lines(b@),
                i as nat,
                j as nat,
            ),
{
    let ghost x = string_lines(a@);
    let ghost y = string_lines(b@);
    let mut matrix: Vec<Vec<usize>> = Vec::new();
    let mut first: Vec<usize> = Vec::new();
    first.push(0);
    let mut j: usize = 0;
    while j < b.len()
        invariant
            j <= b@.len(),
            first@.len() == j + 1,
            forall|k: int| 0 <= k <= j ==> first@[k] == 0,
        decreases b@.len() - j,
    {
        first.push(0);
        j = j + 1;
    }
    matrix.push(first);
    let alen = a.len();
    let mut i: usize = 0;
    while i < alen
        invariant
            alen == a@.len(),
            i <= a@.len(),
            x == string_lines(a@),
            y == string_lines(b@),
            matrix@.len() == i + 1,
            forall|r: int| 0 <= r <= i ==> (#[trigger] matrix@[r])@.len() == b@.len() + 1,
            forall|r: int, k: int|
                #![trigger matrix@[r]@[k]]
                0 <= r <= i && 0 <= k <= b@.len() ==> matrix@[r]@[k] == lcs_len(x, y, r as nat, k as nat),
        decreases a@.len() - i,
    {
        let mut row: Vec<usize> = Vec::new();
        row.push(0);
        let mut j: usize = 0;
        while j < b.len()
            invariant
                alen == a@.len(),
                i < a@.len(),
                j <= b@.len(),
                x == string_lines(a@),
                y == string_lines(b@),
                matrix@.len() == i + 1,
                row@.len() == j + 1,
                forall|r: int| 0 <= r <= i ==> (#[trigger] matrix@[r])@.len() == b@.len() + 1,
                forall|r: int, k: int|
                    #![trigger matrix@[r]@[k]]
                    0 <= r <= i && 0 <= k <= b@.len() ==> matrix@[r]@[k] == lcs_len(x, y, r as nat, k as nat),
                forall|k: int| 0 <= k <= j ==> #[trigger] row@[k] == lcs_len(x, y, (i + 1) as nat, k as nat),
            decreases b@.len() - j,
        {
            assert(x[i as int] == a@[i as int]@);
            assert(y[j as int] == b@[j as int]@);
            let value = if a[i] == b[j] {
                proof {
                    lemma_lcs_bound(x, y, i as nat, j as nat);
                }
                assert(matrix@[i as int]@[j as int] == lcs_len(x, y, i as nat, j as nat));
                matrix[i][j] + 1
            } else {
                let left = row[j];
                let up = matrix[i][j + 1];
                if left >= up {
                    left
                } else {
                    up
                }
            };
            row.push(value);
            j = j + 1;
        }
        matrix.push(row);
        i = i + 1;
    }
    matrix
}

/// The diff lines of the first `i` lines of `x` and the first `j` of `y`.
fn diff_to_vec(x: &Vec<String>, y: &Vec<String>, c: &Vec<Vec<usize>>, i: usize, j: usize) -> (output: Vec<String>)
    requires
        i <= x@.len(),
        j <= y@.len(),
        c@.len() == x@.len() + 1,
        forall|r: int| 0 <= r <= x@.len() ==> (#[trigger] c@[r])@.len() == y@.len() + 1,
        forall|r: int, k: int|
            #![trigger c@[r]@[k]]
            0 <= r <= x@.len() && 0 <= k <= y@.len() ==> c@[r]@[k] == lcs_len(
                string_lines(x@),
                string_lines(y@),
                r as nat,
                k as nat,
            ),
    ensures
        string_lines(output@) == diff_ops(string_lines(x@), string_lines(y@), i as nat, j as nat).map_values(
            |op: DiffOp| diff_line(op),
        ),
    decreases i + j,
{
    let ghost xs = string_lines(x@);
    let ghost ys = string_lines(y@);
    if i > 0 && j > 0 && x[i - 1] == y[j - 1] {
        let mut output = diff_to_vec(x, y, c, i - 1, j - 1);
        let mut line = x[i - 1].clone();
        line.append("\n");
        proof {
            reveal_strlit("\n");
        }
        assert(line@ == diff_line(DiffOp::Common(xs[i - 1])));
        let ghost before = output@;
        output.push(line);
        assert(string_lines(output@) =~= string_lines(before).push(diff_line(DiffOp::Common(xs[i - 1]))));
        output
    } else if j > 0 && (i == 0 || c[i][j - 1] >= c[i - 1][j]) {
        let mut output = diff_to_vec(x, y, c, i, j - 1);
        let mut line = ">>>>>>> ".to_string();
        line.append(y[j - 1].as_str());
        line.append("\n");
        proof {
            reveal_strlit("\n");
        }
        assert(line@ == diff_line(DiffOp::Added(ys[j - 1])));
        let ghost before = output@;
        output.push(line);
        assert(string_lines(output@) =~= string_lines(before).push(diff_line(DiffOp::Added(ys[j - 1]))));
        output
    } else if i > 0 {
        let mut output = diff_to_vec(x, y, c, i - 1, j);
        let mut line = "<<<<<<< ".to_string();
        line.append(x[i - 1].as_str());
        line.append("\n");
        proof {
            reveal_strlit("\n");
        }
        assert(line@ == diff_line(DiffOp::Removed(xs[i - 1])));
        let ghost before = output@;
        output.push(line);
        assert(string_lines(output@) =~= string_lines(before).push(diff_line(DiffOp::Removed(xs[i - 1]))));
        output
    } else {
        let output: Vec<String> = Vec::new();
        assert(string_lines(output@) =~= Seq::<Seq<char>>::empty());
        output
    }
}

/// The difference between two texts given by their lines: a line for each
/// line of either, common ones as they are, added ones after `>>>>>>> `,
/// removed ones after `<<<<<<< `.
pub fn return_diff(lines_a: &Vec<String>, lines_b: &Vec<String>) -> (diff: Vec<String>)
    ensures
        string_lines(diff@) == diff_ops(
            string_lines(lines_a@),
            string_lines(lines_b@),
            lines_a@.len(),
            lines_b@.len(),
        ).map_values(|op: DiffOp| diff_line(op)),
{
    let c = compute_longest_common_subsequence_matrix(lines_a, lines_b);
    diff_to_vec(lines_a, lines_b, &c, lines_a.len(), lines_b.len())
}

/// The lines joined without anything between them.
pub open spec fn concat_all(ls: Seq<Seq<char>>) -> Seq<char>
    decreases ls.len(),
{
    if ls.len() == 0 {
        seq![]
    } else {
        concat_all(ls.drop_last()) + ls.last()
    }
}

fn to_strings(pieces: &Vec<Vec<char>>) -> (out: Vec<String>)
    ensures
        string_lines(out@) == char_lines(pieces@),
{
    let mut out: Vec<String> = Vec::new();
    let mut i: usize = 0;
    while i < pieces.len()
        invariant
            i <= pieces@.len(),
            string_lines(out@) == char_lines(pieces@).take(i as int),
        decreases pieces@.len() - i,
    {
        let ghost before = out@;
        let s = string_from_chars(pieces[i].as_slice());
        out.push(s);
        assert(string_lines(out@) =~= string_lines(before).push(pieces@[i as int]@));
        assert(char_lines(pieces@).take(i + 1) =~= char_lines(pieces@).take(i as int).push(pieces@[i as int]@));
        i = i + 1;
    }
    assert(char_lines(pieces@).take(pieces@.len() as int) == char_lines(pieces@));
    out
}

/// The difference between the contents of two objects, split at their line
/// breaks, as one text.
pub fn return_object_diff_string(object_a: &str, object_b: &str) -> (diff: String)
    ensures
        diff@ == concat_all(
            diff_ops(
                split_char(object_a@, '\n'),
                split_char(object_b@, '\n'),
                split_char(object_a@, '\n').len(),
                split_char(object_b@, '\n').len(),
            ).map_values(|op: DiffOp| diff_line(op)),
        ),
        object_a@ == object_b@ ==> diff@ == object_a@ + seq!['\n'],
{
    let a = to_strings(&split_on_char(chars_of(object_a).as_slice(), '\n'));
    let b = to_strings(&split_on_char(chars_of(object_b).as_slice(), '\n'));
    let lines = return_diff(&a, &b);
    let ghost lv = string_lines(lines@);
    let mut out = String::new();
    let mut i: usize = 0;
    while i < lines.len()
        invariant
            i <= lines@.len(),
            lv == string_lines(lines@),
            out@ == concat_all(lv.take(i as int)),
        decreases lines@.len() - i,
    {
        assert(lv.take(i + 1).drop_last() == lv.take(i as int));
        out.append(lines[i].as_str());
        i = i + 1;
    }
    assert(lv.take(lines@.len() as int) == lv);
    proof {
        law_diff_of_same_object(object_a@);
    }
    out
}

/// The diff of a text with itself keeps every line as common.
proof fn lemma_diff_of_equal(x: Seq<Seq<char>>, i: nat)
    requires
        i <= x.len(),
    ensures
        diff_ops(x, x, i, i) == x.take(i as int).map_values(|l: Seq<char>| DiffOp::Common(l)),
    decreases i,
{
    if i > 0 {
        lemma_diff_of_equal(x, (i - 1) as nat);
        assert(x.take(i as int) == x.take(i - 1).push(x[i - 1]));
        assert(x.take(i as int).map_values(|l: Seq<char>| DiffOp::Common(l)) =~= x.take(i - 1).map_values(
            |l: Seq<char>| DiffOp::Common(l),
        ).push(DiffOp::Common(x[i - 1])));
    }
}

proof fn lemma_concat_all_front(a: Seq<char>, ls: Seq<Seq<char>>)
    ensures
        concat_all(seq![a] + ls) == a + concat_all(ls),
    decreases ls.len(),
{
    if ls.len() == 0 {
        assert(seq![a] + ls == seq![a]);
        assert(seq![a].drop_last() == Seq::<Seq<char>>::empty());
        assert(Seq::<char>::empty() + a == a);
        assert(a + Seq::<char>::empty() == a);
        assert(concat_all(Seq::<Seq<char>>::empty()) == Seq::<char>::empty());
        assert(concat_all(seq![a]) == a);
        assert(concat_all(ls) == Seq::<char>::empty());
    } else {
        lemma_concat_all_front(a, ls.drop_last());
        assert((seq![a] + ls).drop_last() == seq![a] + ls.drop_last());
        assert((seq![a] + ls).last() == ls.last());
        assert((a + concat_all(ls.drop_last())) + ls.last() == a + (concat_all(ls.drop_last()) + ls.last()));
        assert(concat_all(seq![a] + ls) == concat_all(seq![a] + ls.drop_last()) + ls.last());
        assert(concat_all(ls) == concat_all(ls.drop_last()) + ls.last());
    }
}

/// The pieces of `s` between the `c`s, each followed by `c`, make `s` and
/// one more `c`.
proof fn lemma_split_rejoined(s: Seq<char>, c: char)
    ensures
        concat_all(split_char(s, c).map_values(|l: Seq<char>| l + seq![c])) == s + seq![c],
    decreases s.len(),
{
    crate::text::lemma_index_of(s, c);
    match crate::text::index_of(s, c) {
        None => {
            assert(split_char(s, c).map_values(|l: Seq<char>| l + seq![c]) =~= seq![s + seq![c]]);
            assert(seq![s + seq![c]].drop_last() == Seq::<Seq<char>>::empty());
            assert(Seq::<char>::empty() + (s + seq![c]) == s + seq![c]);
            assert(concat_all(Seq::<Seq<char>>::empty()) == Seq::<char>::empty());
        },
        Some(i) => {
            let rest = s.skip((i + 1) as int);
            lemma_split_rejoined(rest, c);
            let tail = split_char(rest, c).map_values(|l: Seq<char>| l + seq![c]);
            assert(split_char(s, c).map_values(|l: Seq<char>| l + seq![c]) =~= seq![s.take(i as int) + seq![c]]
                + tail);
            lemma_concat_all_front(s.take(i as int) + seq![c], tail);
            assert(s =~= s.take(i as int) + seq![c] + rest);
            assert(s + seq![c] =~= (s.take(i as int) + seq![c]) + (rest + seq![c]));
        },
    }
}

/// Law: an object diffed against itself keeps every line: the diff is its
/// text, and a line break after it.
pub proof fn law_diff_of_same_object(text: Seq<char>)
    ensures
        concat_all(
            diff_ops(
                split_char(text, '\n'),
                split_char(text, '\n'),
                split_char(text, '\n').len(),
                split_char(text, '\n').len(),
            ).map_values(|op: DiffOp| diff_line(op)),
        ) == text + seq!['\n'],
{
    let x = split_char(text, '\n');
    lemma_diff_of_equal(x, x.len());
    assert(x.take(x.len() as int) == x);
    assert(diff_ops(x, x, x.len(), x.len()).map_values(|op: DiffOp| diff_line(op)) =~= x.map_values(
        |l: Seq<char>| l + seq!['\n'],
    ));
    lemma_split_rejoined(text, '\n');
}

/// `s` is a subsequence of `x`: its lines appear in `x` in order, not
/// necessarily next to each other.
pub open spec fn is_subseq(s: Seq<Seq<char>>, x: Seq<Seq<char>>) -> bool
    decreases x.len(),
{
    if s.len() == 0 {
        true
    } else if x.len() == 0 {
        false
    } else {
        (s.last() == x.last() && is_subseq(s.drop_last(), x.drop_last())) || is_subseq(s, x.drop_last())
    }
}

proof fn lemma_subseq_len(s: Seq<Seq<char>>, x: Seq<Seq<char>>)
    requires
        is_subseq(s, x),
    ensures
        s.len() <= x.len(),
    decreases x.len(),
{
    if s.len() > 0 {
        if s.last() == x.last() && is_subseq(s.drop_last(), x.drop_last()) {
            lemma_subseq_len(s.drop_last(), x.drop_last());
        } else {
            lemma_subseq_len(s, x.drop_last());
        }
    }
}

proof fn lemma_subseq_extend(s: Seq<Seq<char>>, x: Seq<Seq<char>>, l: Seq<char>)
    requires
        is_subseq(s, x),
    ensures
        is_subseq(s, x.push(l)),
{
    if s.len() > 0 {
        assert(x.push(l).drop_last() == x);
    }
}

proof fn lemma_subseq_drop_last(s: Seq<Seq<char>>, x: Seq<Seq<char>>)
    requires
        is_subseq(s, x),
        s.len() > 0,
    ensures
        is_subseq(s.drop_last(), x.drop_last()),
    decreases x.len(),
{
    if !(s.last() == x.last() && is_subseq(s.drop_last(), x.drop_last())) {
        lemma_subseq_drop_last(s, x.drop_last());
        lemma_subseq_extend(s.drop_last(), x.drop_last().drop_last(), x.drop_last().last());
        assert(x.drop_last().drop_last().push(x.drop_last().last()) == x.drop_last());
    }
}

/// No common subsequence of the first `i` lines of `x` and the first `j`
/// lines of `y` is longer than `lcs_len(x, y, i, j)`.
proof fn lemma_lcs_upper(x: Seq<Seq<char>>, y: Seq<Seq<char>>, i: nat, j: nat, s: Seq<Seq<char>>)
    requires
        i <= x.len(),
        j <= y.len(),
        is_subseq(s, x.take(i as int)),
        is_subseq(s, y.take(j as int)),
    ensures
        s.len() <= lcs_len(x, y, i, j),
    decreases i + j,
{
    if i == 0 || j == 0 {
        lemma_subseq_len(s, x.take(i as int));
        lemma_subseq_len(s, y.take(j as int));
    } else if s.len() > 0 {
        let xi = x.take(i as int);
        let yj = y.take(j as int);
        assert(xi.drop_last() == x.take(i - 1));
        assert(yj.drop_last() == y.take(j - 1));
        assert(xi.last() == x[i - 1]);
        assert(yj.last() == y[j - 1]);
        if x[i - 1] == y[j - 1] {
            lemma_subseq_drop_last(s, xi);
            lemma_subseq_drop_last(s, yj);
            lemma_lcs_upper(x, y, (i - 1) as nat, (j - 1) as nat, s.drop_last());
        } else if s.last() != x[i - 1] {
            lemma_lcs_upper(x, y, (i - 1) as nat, j, s);
        } else {
            lemma_lcs_upper(x, y, i, (j - 1) as nat, s);
        }
    }
}

/// The lines that a diff keeps as common, in order.
pub open spec fn common_lines(ops: Seq<DiffOp>) -> Seq<Seq<char>>
    decreases ops.len(),
{
    if ops.len() == 0 {
        seq![]
    } else {
        match ops.last() {
            DiffOp::Common(l) => common_lines(ops.drop_last()).push(l),
            _ => common_lines(ops.drop_last()),
        }
    }
}

proof fn lemma_diff_common(x: Seq<Seq<char>>, y: Seq<Seq<char>>, i: nat, j: nat)
    requires
        i <= x.len(),
        j <= y.len(),
    ensures
        is_subseq(common_lines(diff_ops(x, y, i, j)), x.take(i as int)),
        is_subseq(common_lines(diff_ops(x, y, i, j)), y.take(j as int)),
        common_lines(diff_ops(x, y, i, j)).len() == lcs_len(x, y, i, j),
    decreases i + j,
{
    if i > 0 && j > 0 && x[i - 1] == y[j - 1] {
        let ops = diff_ops(x, y, (i - 1) as nat, (j - 1) as nat);
        lemma_diff_common(x, y, (i - 1) as nat, (j - 1) as nat);
        assert(ops.push(DiffOp::Common(x[i - 1])).drop_last() == ops);
        let c = common_lines(ops);
        assert(c.push(x[i - 1]).drop_last() == c);
        assert(x.take(i as int) == x.take(i - 1).push(x[i - 1]));
        assert(y.take(j as int) == y.take(j - 1).push(y[j - 1]));
        assert(x.take(i - 1).push(x[i - 1]).drop_last() == x.take(i - 1));
        assert(y.take(j - 1).push(y[j - 1]).drop_last() == y.take(j - 1));
        assert(common_lines(diff_ops(x, y, i, j)) == c.push(x[i - 1]));
        assert(is_subseq(c.push(x[i - 1]), x.take(i - 1).push(x[i - 1])));
        assert(is_subseq(c.push(x[i - 1]), y.take(j - 1).push(y[j - 1])));
    } else if j > 0 && (i == 0 || lcs_len(x, y, i, (j - 1) as nat) >= lcs_len(x, y, (i - 1) as nat, j)) {
        let ops = diff_ops(x, y, i, (j - 1) as nat);
        lemma_diff_common(x, y, i, (j - 1) as nat);
        assert(ops.push(DiffOp::Added(y[j - 1])).drop_last() == ops);
        assert(y.take(j as int) == y.take(j - 1).push(y[j - 1]));
        lemma_subseq_extend(common_lines(ops), y.take(j - 1), y[j - 1]);
        if i == 0 {
            lemma_subseq_len(common_lines(ops), x.take(0));
        }
    } else if i > 0 {
        let ops = diff_ops(x, y, (i - 1) as nat, j);
        lemma_diff_common(x, y, (i - 1) as nat, j);
        assert(ops.push(DiffOp::Removed(x[i - 1])).drop_last() == ops);
        assert(x.take(i as int) == x.take(i - 1).push(x[i - 1]));
        lemma_subseq_extend(common_lines(ops), x.take(i - 1), x[i - 1]);
        if j == 0 {
            lemma_subseq_len(common_lines(ops), y.take(0));
        }
    }
}

/// Law: the lines that a diff keeps as common form a longest common
/// subsequence of the two texts: they appear in order in both, and no
/// sequence of lines that appears in order in both is longer. A line of the
/// texts is marked removed or added only when it cannot be kept.
pub proof fn law_diff_keeps_a_longest_common_subsequence(
    x: Seq<Seq<char>>,
    y: Seq<Seq<char>>,
    i: nat,
    j: nat,
    s: Seq<Seq<char>>,
)
    requires
        i <= x.len(),
        j <= y.len(),
    ensures
        is_subseq(common_lines(diff_ops(x, y, i, j)), x.take(i as int)),
        is_subseq(common_lines(diff_ops(x, y, i, j)), y.take(j as int)),
        is_subseq(s, x.take(i as int)) && is_subseq(s, y.take(j as int)) ==> s.len() <= common_lines(
            diff_ops(x, y, i, j),
        ).len(),
{
    lemma_diff_common(x, y, i, j);
    if is_subseq(s, x.take(i as int)) && is_subseq(s, y.take(j as int)) {
        lemma_lcs_upper(x, y, i, j, s);
    }
}

/// Law: how a diff writes its lines: a common line as it is, a line only
/// in the first text after `<<<<<<< `, a line only in the second text after
/// `>>>>>>> `, each followed by a line break.
pub proof fn law_diff_line_marks(l: Seq<char>)
    ensures
        diff_line(DiffOp::Common(l)) == l + "\n"@,
        diff_line(DiffOp::Removed(l)) == "<<<<<<< "@ + l + "\n"@,
        diff_line(DiffOp::Added(l)) == ">>>>>>> "@ + l + "\n"@,
{
    reveal_strlit("\n");
    assert("\n"@ =~= seq!['\n']);
}

} // verus!
