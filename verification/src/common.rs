use vstd::prelude::*;

verus! {

/// A 1-based (line, column) source position, as reported by the
/// upstream front end.
#[derive(Clone, Copy, Debug, PartialEq, Eq, Structural)]
pub struct LineCol {
    pub line: i64,
    pub col: i64,
}

/// Every AST node is a triple of syntactic content, source position,
/// and a per-backend annotation payload.
pub type Enriched<T, D> = (T, LineCol, D);

/// A backend-chosen annotation payload with a default/empty value; the
/// parser fills every node's annotation slot with that value.
pub trait Annot: Sized {
    /// The empty annotation value.
    spec fn empty_spec() -> Self;

    /// Produce the empty annotation value.
    fn empty() -> (r: Self)
        ensures
            r == Self::empty_spec(),
    ;
}

impl Annot for () {
    open spec fn empty_spec() -> Self {
        ()
    }

    fn empty() -> (r: Self) {
    }
}

/// The character for the decimal digit `d`.
pub open spec fn digit_char(d: int) -> char {
    if d == 0 {
        '0'
    } else if d == 1 {
        '1'
    } else if d == 2 {
        '2'
    } else if d == 3 {
        '3'
    } else if d == 4 {
        '4'
    } else if d == 5 {
        '5'
    } else if d == 6 {
        '6'
    } else if d == 7 {
        '7'
    } else if d == 8 {
        '8'
    } else {
        '9'
    }
}

/// The decimal digits of the non-negative integer `n`, most
/// significant first.
pub open spec fn dec_nat(n: int) -> Seq<char>
    decreases n,
{
    if n < 10 {
        seq![digit_char(n)]
    } else {
        dec_nat(n / 10) + seq![digit_char(n % 10)]
    }
}

/// The decimal rendering of an integer, with a leading minus sign
/// when it is negative.
pub open spec fn dec_int(n: int) -> Seq<char> {
    if n < 0 {
        seq!['-'] + dec_nat(-n)
    } else {
        dec_nat(n)
    }
}

/// A one-character string for the decimal digit `d`.
fn digit_str(d: u64) -> (r: &'static str)
    requires
        d <= 9,
    ensures
        r@ == seq![digit_char(d as int)],
{
    if d == 0 {
        proof {
            reveal_strlit("0");
            assert("0"@ =~= seq![digit_char(0)]);
        }
        "0"
    } else if d == 1 {
        proof {
            reveal_strlit("1");
            assert("1"@ =~= seq![digit_char(1)]);
        }
        "1"
    } else if d == 2 {
        proof {
            reveal_strlit("2");
            assert("2"@ =~= seq![digit_char(2)]);
        }
        "2"
    } else if d == 3 {
        proof {
            reveal_strlit("3");
            assert("3"@ =~= seq![digit_char(3)]);
        }
        "3"
    } else if d == 4 {
        proof {
            reveal_strlit("4");
            assert("4"@ =~= seq![digit_char(4)]);
        }
        "4"
    } else if d == 5 {
        proof {
            reveal_strlit("5");
            assert("5"@ =~= seq![digit_char(5)]);
        }
        "5"
    } else if d == 6 {
        proof {
            reveal_strlit("6");
            assert("6"@ =~= seq![digit_char(6)]);
        }
        "6"
    } else if d == 7 {
        proof {
            reveal_strlit("7");
            assert("7"@ =~= seq![digit_char(7)]);
        }
        "7"
    } else if d == 8 {
        proof {
            reveal_strlit("8");
            assert("8"@ =~= seq![digit_char(8)]);
        }
        "8"
    } else {
        proof {
            reveal_strlit("9");
            assert("9"@ =~= seq![digit_char(9)]);
        }
        "9"
    }
}

/// Render a non-negative integer in decimal.
pub fn u64_to_dec(n: u64) -> (r: String)
    ensures
        r@ == dec_nat(n as int),
    decreases n,
{
    if n < 10 {
        String::from_str(digit_str(n))
    } else {
        let front = u64_to_dec(n / 10);
        front.concat(digit_str(n % 10))
    }
}

/// Render a signed integer in decimal.
pub fn i64_to_dec(n: i64) -> (r: String)
    ensures
        r@ == dec_int(n as int),
{
    if n >= 0 {
        u64_to_dec(n as u64)
    } else {
        let m: u64 = ((-(n + 1)) as u64) + 1;
        assert(m == -(n as int));
        let d = u64_to_dec(m);
        let r = String::from_str("-").concat(d.as_str());
        proof {
            reveal_strlit("-");
            assert("-"@ =~= seq!['-']);
        }
        r
    }
}

/// Are two strings equal, character for character?
pub fn str_eq(a: &str, b: &str) -> (r: bool)
    ensures
        r == (a@ == b@),
{
    let n = a.unicode_len();
    let m = b.unicode_len();
    if n != m {
        return false;
    }
    let mut i: usize = 0;
    while i < n
        invariant
            n == a@.len(),
            n == b@.len(),
            i <= n,
            forall|t: int| 0 <= t < i ==> a@[t] == b@[t],
        decreases n - i,
    {
        if a.get_char(i) != b.get_char(i) {
            return false;
        }
        i = i + 1;
    }
    proof {
        assert(a@ =~= b@);
    }
    true
}

/// The chunks joined with a newline between each pair.
pub open spec fn join_lines(chunks: Seq<Seq<char>>) -> Seq<char>
    decreases chunks.len(),
{
    if chunks.len() == 0 {
        Seq::empty()
    } else if chunks.len() == 1 {
        chunks[0]
    } else {
        chunks[0] + seq!['\n'] + join_lines(chunks.drop_first())
    }
}

/// Joining one more chunk appends a newline and the chunk (or is the
/// chunk itself when nothing was there).
pub proof fn lemma_join_lines_push(chunks: Seq<Seq<char>>, x: Seq<char>)
    ensures
        join_lines(chunks.push(x)) == if chunks.len() == 0 {
            x
        } else {
            join_lines(chunks) + seq!['\n'] + x
        },
    decreases chunks.len(),
{
    if chunks.len() == 0 {
        assert(chunks.push(x).len() == 1);
        assert(join_lines(chunks.push(x)) == x);
    } else {
        lemma_join_lines_push(chunks.drop_first(), x);
        assert(chunks.push(x).drop_first() =~= chunks.drop_first().push(x));
        if chunks.len() == 1 {
            assert(join_lines(chunks.drop_first()).len() == 0);
            assert(join_lines(chunks) + seq!['\n'] + x =~= chunks[0] + seq!['\n'] + x);
        } else {
            assert(join_lines(chunks) + seq!['\n'] + x =~= chunks[0] + seq!['\n'] + (join_lines(
                chunks.drop_first(),
            ) + seq!['\n'] + x));
        }
    }
}

/// Join text chunks with newlines between them.
pub fn join_newlines(chunks: &Vec<String>) -> (out: String)
    ensures
        out@ == join_lines(chunks.deep_view()),
{
    let mut out = String::new();
    let mut i: usize = 0;
    while i < chunks.len()
        invariant
            i <= chunks@.len(),
            out@ == join_lines(chunks.deep_view().take(i as int)),
        decreases chunks@.len() - i,
    {
        if i > 0 {
            out.append("\n");
            proof {
                reveal_strlit("\n");
                assert("\n"@ =~= seq!['\n']);
            }
        }
        out.append(chunks[i].as_str());
        proof {
            let dv = chunks.deep_view();
            assert(dv.take(i + 1) =~= dv.take(i as int).push(dv[i as int]));
            lemma_join_lines_push(dv.take(i as int), dv[i as int]);
            assert(dv[i as int] == chunks@[i as int]@);
        }
        i = i + 1;
    }
    proof {
        assert(chunks.deep_view().take(chunks@.len() as int) =~= chunks.deep_view());
    }
    out
}

} // verus!
