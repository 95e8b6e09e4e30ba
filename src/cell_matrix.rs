use vstd::prelude::*;
use vstd::string::StringExecFns;
use vstd::string::StrSliceExecFns;

use crate::text::{trim, trimmed};

verus! {

/// One element of a matrix.
#[derive(Debug, Clone, PartialEq)]
pub struct Cell<T>(pub T);

/// A two by two matrix, row after row.
#[derive(Debug)]
pub struct Matrix<T: Clone> {
    pub m: [[Cell<T>; 2]; 2],
}

/// The decimal digits of `n`, most significant first.
pub open spec fn digits(n: nat) -> Seq<char>
    decreases n,
{
    if n < 10 {
        seq![('0' as u8 + n) as char]
    } else {
        digits(n / 10).push(('0' as u8 + n % 10) as char)
    }
}

/// `n` written in decimal, with a leading `-` when negative.
pub open spec fn decimal(n: int) -> Seq<char> {
    if n < 0 {
        seq!['-'] + digits((-n) as nat)
    } else {
        digits(n as nat)
    }
}

/// The characters of `s` in reverse order.
pub open spec fn reversed(s: Seq<char>) -> Seq<char> {
    Seq::new(s.len(), |i: int| s[s.len() - 1 - i])
}

/// `s` written `k` times in a row.
pub open spec fn repeated(s: Seq<char>, k: nat) -> Seq<char>
    decreases k,
{
    if k == 0 {
        Seq::empty()
    } else {
        repeated(s, (k - 1) as nat) + s
    }
}

/// What adding the number `n` to the text `s` gives: the number then the text, or, for a
/// negative number, the reversed text then the absolute value.
pub open spec fn sum_text(n: int, s: Seq<char>) -> Seq<char> {
    if n >= 0 {
        decimal(n) + seq![' '] + s
    } else {
        reversed(s) + seq![' '] + decimal(-n)
    }
}

/// What multiplying the text `s` by the number `n` gives: the text `n` times, or the reversed
/// text `-n` times.
pub open spec fn product_text(n: int, s: Seq<char>) -> Seq<char> {
    if n >= 0 {
        repeated(s, n as nat)
    } else {
        repeated(reversed(s), (-n) as nat)
    }
}

/// Relies on the `Display` of `i64`: an integer in decimal, with `-` before a negative one.
#[verifier::external_body]
fn decimal_text(n: i64) -> (r: String)
    ensures
        r@ == decimal(n as int),
{
    n.to_string()
}

/// Relies on `String::push`: the character is added at the end.
#[verifier::external_body]
fn push_char(s: &mut String, c: char)
    ensures
        final(s)@ == old(s)@.push(c),
{
    s.push(c)
}

/// The characters of `s` in reverse order.
pub fn reverse_text(s: &str) -> (r: String)
    ensures
        r@ == reversed(s@),
{
    let n = s.unicode_len();
    let mut r = String::new();
    let mut i: usize = 0;
    while i < n
        invariant
            n == s@.len(),
            i <= n,
            r@ =~= reversed(s@).subrange(0, i as int),
        decreases n - i,
    {
        push_char(&mut r, s.get_char(n - 1 - i));
        i = i + 1;
    }
    r
}

/// The number `n` added to the text `s`.
pub fn add_text(n: i32, s: &str) -> (r: String)
    ensures
        r@ == sum_text(n as int, s@),
{
    proof {
        reveal_strlit(" ");
    }
    if n >= 0 {
        let mut r = decimal_text(n as i64);
        r.append(" ");
        r.append(s);
        r
    } else {
        let mut r = reverse_text(s);
        r.append(" ");
        r.append(decimal_text(-(n as i64)).as_str());
        r
    }
}

/// `s` written `k` times in a row.
fn repeat_text(s: &str, k: u32) -> (r: String)
    ensures
        r@ == repeated(s@, k as nat),
{
    let mut r = String::new();
    let mut i: u32 = 0;
    while i < k
        invariant
            i <= k,
            r@ == repeated(s@, i as nat),
        decreases k - i,
    {
        r.append(s);
        i = i + 1;
    }
    r
}

/// The text `s` multiplied by the number `n`.
pub fn mul_text(n: i32, s: &str) -> (r: String)
    ensures
        r@ == product_text(n as int, s@),
{
    if n >= 0 {
        repeat_text(s, n as u32)
    } else {
        let back = reverse_text(s);
        repeat_text(back.as_str(), (-(n as i64)) as u32)
    }
}

impl core::ops::Add<Cell<String>> for Cell<i32> {
    type Output = Cell<String>;

    fn add(self, other: Cell<String>) -> Cell<String> {
        Cell(add_text(self.0, other.0.as_str()))
    }
}

impl vstd::std_specs::ops::AddSpecImpl<Cell<String>> for Cell<i32> {
    open spec fn obeys_add_spec() -> bool {
        false
    }

    open spec fn add_req(self, rhs: Cell<String>) -> bool {
        true
    }

    open spec fn add_spec(self, rhs: Cell<String>) -> Cell<String> {
        arbitrary()
    }
}

impl core::ops::Mul<Cell<String>> for Cell<i32> {
    type Output = Cell<String>;

    fn mul(self, other: Cell<String>) -> Cell<String> {
        Cell(mul_text(self.0, other.0.as_str()))
    }
}

impl vstd::std_specs::ops::MulSpecImpl<Cell<String>> for Cell<i32> {
    open spec fn obeys_mul_spec() -> bool {
        false
    }

    open spec fn mul_req(self, rhs: Cell<String>) -> bool {
        true
    }

    open spec fn mul_spec(self, rhs: Cell<String>) -> Cell<String> {
        arbitrary()
    }
}

impl<T: Clone> Matrix<T> {
    /// The element in row `i` and column `j`.
    pub open spec fn at(&self, i: int, j: int) -> T {
        self.m@[i]@[j].0
    }

    /// A matrix cloned from four elements given row after row.
    pub fn new(data: &[T; 4]) -> (r: Matrix<T>)
        ensures
            forall|k: int| 0 <= k < 4 ==> cloned(#[trigger] data@[k], r.at(k / 2, k % 2)),
    {
        let r = Matrix {
            m: [
                [Cell(data[0].clone()), Cell(data[1].clone())],
                [Cell(data[2].clone()), Cell(data[3].clone())],
            ],
        };
        assert forall|k: int| 0 <= k < 4 implies cloned(#[trigger] data@[k], r.at(k / 2, k % 2)) by {
            if k == 0 {
            } else if k == 1 {
            } else if k == 2 {
            } else {
            }
        }
        r
    }

    /// Clones of the four elements, row after row, each row left to right.
    pub fn by_row(&self) -> (r: Vec<Cell<T>>)
        ensures
            r@.len() == 4,
            forall|k: int| 0 <= k < 4 ==> cloned(self.at(k / 2, k % 2), (#[trigger] r@[k]).0),
    {
        let mut v: Vec<Cell<T>> = Vec::with_capacity(4);
        let mut k: usize = 0;
        while k < 4
            invariant
                k <= 4,
                v@.len() == k,
                forall|x: int| 0 <= x < k ==> cloned(self.at(x / 2, x % 2), (#[trigger] v@[x]).0),
            decreases 4 - k,
        {
            v.push(Cell(self.m[k / 2][k % 2].0.clone()));
            k = k + 1;
        }
        v
    }

    /// Clones of the four elements, column after column, each column top to bottom.
    pub fn by_col(&self) -> (r: Vec<Cell<T>>)
        ensures
            r@.len() == 4,
            forall|k: int| 0 <= k < 4 ==> cloned(self.at(k % 2, k / 2), (#[trigger] r@[k]).0),
    {
        let mut v: Vec<Cell<T>> = Vec::with_capacity(4);
        let mut k: usize = 0;
        while k < 4
            invariant
                k <= 4,
                v@.len() == k,
                forall|x: int| 0 <= x < k ==> cloned(self.at(x % 2, x / 2), (#[trigger] v@[x]).0),
            decreases 4 - k,
        {
            v.push(Cell(self.m[k % 2][k / 2].0.clone()));
            k = k + 1;
        }
        v
    }
}

/// Adds each number of `nums` to the text in the same place of `texts`.
pub fn add_matrices(nums: &Matrix<i32>, texts: &Matrix<String>) -> (r: Matrix<String>)
    ensures
        forall|i: int, j: int|
            0 <= i < 2 && 0 <= j < 2 ==> (#[trigger] r.at(i, j))@ == sum_text(nums.at(i, j) as int, texts.at(i, j)@),
{
    let r = Matrix {
        m: [
            [
                Cell(add_text(nums.m[0][0].0, texts.m[0][0].0.as_str())),
                Cell(add_text(nums.m[0][1].0, texts.m[0][1].0.as_str())),
            ],
            [
                Cell(add_text(nums.m[1][0].0, texts.m[1][0].0.as_str())),
                Cell(add_text(nums.m[1][1].0, texts.m[1][1].0.as_str())),
            ],
        ],
    };
    assert forall|i: int, j: int| 0 <= i < 2 && 0 <= j < 2 implies (#[trigger] r.at(i, j))@ == sum_text(
        nums.at(i, j) as int,
        texts.at(i, j)@,
    ) by {
        if i == 0 && j == 0 {
        } else if i == 0 {
        } else if j == 0 {
        } else {
        }
    }
    r
}

/// The text that multiplying `nums` by `texts` gives: each number times the text in the
/// transposed place, read row after row and joined by spaces, then trimmed.
pub open spec fn matrix_product_text(nums: Matrix<i32>, texts: Matrix<String>) -> Seq<char> {
    trimmed(
        seq![' '] + product_text(nums.at(0, 0) as int, texts.at(0, 0)@) + seq![' ']
            + product_text(nums.at(0, 1) as int, texts.at(1, 0)@) + seq![' ']
            + product_text(nums.at(1, 0) as int, texts.at(0, 1)@) + seq![' ']
            + product_text(nums.at(1, 1) as int, texts.at(1, 1)@),
    )
}

/// Multiplies `nums` by `texts` into one line of text.
pub fn multiply_matrices(nums: &Matrix<i32>, texts: &Matrix<String>) -> (r: String)
    ensures
        r@ == matrix_product_text(*nums, *texts),
{
    proof {
        reveal_strlit(" ");
    }
    let mut line = String::new();
    let mut i: usize = 0;
    let ghost mut parts: Seq<Seq<char>> = seq![
        product_text(nums.at(0, 0) as int, texts.at(0, 0)@),
        product_text(nums.at(0, 1) as int, texts.at(1, 0)@),
        product_text(nums.at(1, 0) as int, texts.at(0, 1)@),
        product_text(nums.at(1, 1) as int, texts.at(1, 1)@),
    ];
    while i < 4
        invariant
            i <= 4,
            " "@ == seq![' '],
            parts == seq![
                product_text(nums.at(0, 0) as int, texts.at(0, 0)@),
                product_text(nums.at(0, 1) as int, texts.at(1, 0)@),
                product_text(nums.at(1, 0) as int, texts.at(0, 1)@),
                product_text(nums.at(1, 1) as int, texts.at(1, 1)@),
            ],
            i == 0 ==> line@ == Seq::<char>::empty(),
            i == 1 ==> line@ == seq![' '] + parts[0],
            i == 2 ==> line@ == seq![' '] + parts[0] + seq![' '] + parts[1],
            i == 3 ==> line@ == seq![' '] + parts[0] + seq![' '] + parts[1] + seq![' '] + parts[2],
            i == 4 ==> line@ == seq![' '] + parts[0] + seq![' '] + parts[1] + seq![' '] + parts[2] + seq![' ']
                + parts[3],
        decreases 4 - i,
    {
        let row = i / 2;
        let col = i % 2;
        let part = mul_text(nums.m[row][col].0, texts.m[col][row].0.as_str());
        line.append(" ");
        line.append(part.as_str());
        i = i + 1;
    }
    String::from_str(trim(line.as_str()))
}

impl core::ops::Add<Matrix<String>> for Matrix<i32> {
    type Output = Matrix<String>;

    fn add(self, other: Matrix<String>) -> Matrix<String> {
        add_matrices(&self, &other)
    }
}

impl vstd::std_specs::ops::AddSpecImpl<Matrix<String>> for Matrix<i32> {
    open spec fn obeys_add_spec() -> bool {
        false
    }

    open spec fn add_req(self, rhs: Matrix<String>) -> bool {
        true
    }

    open spec fn add_spec(self, rhs: Matrix<String>) -> Matrix<String> {
        arbitrary()
    }
}

impl core::ops::Mul<Matrix<String>> for Matrix<i32> {
    type Output = String;

    fn mul(self, other: Matrix<String>) -> String {
        multiply_matrices(&self, &other)
    }
}

impl vstd::std_specs::ops::MulSpecImpl<Matrix<String>> for Matrix<i32> {
    open spec fn obeys_mul_spec() -> bool {
        false
    }

    open spec fn mul_req(self, rhs: Matrix<String>) -> bool {
        true
    }

    open spec fn mul_spec(self, rhs: Matrix<String>) -> String {
        arbitrary()
    }
}

} // verus!
