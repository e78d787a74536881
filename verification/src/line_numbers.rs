//! The line-number gutter of the script editor.
use vstd::prelude::*;

verus! {

/// The decimal digit for `d` (below ten).
pub open spec fn digit_char(d: nat) -> char {
    if d == 0 {
        '0'
    } else if d == 1 {
        '1'
    } else if d == 2 {
        '2'
    } else if d == 3 {
        '3'
    } else if d == 4 {
        '4'
    } else if d == 5 {
        '5'
    } else if d == 6 {
        '6'
    } else if d == 7 {
        '7'
    } else if d == 8 {
        '8'
    } else {
        '9'
    }
}

/// The decimal digits of `x`, most significant first.
pub open spec fn decimal(x: nat) -> Seq<char>
    decreases x,
{
    if x < 10 {
        seq![digit_char(x)]
    } else {
        decimal(x / 10).push(digit_char(x % 10))
    }
}

/// `x` in decimal, right-aligned with spaces to `width` characters.
pub open spec fn right_aligned(x: nat, width: nat) -> Seq<char> {
    Seq::new((width - decimal(x).len()) as nat, |i: int| ' ') + decimal(x)
}

/// The lines `1..=upto`, each right-aligned to `width` and ended by a newline.
pub open spec fn numbered_lines(upto: nat, width: nat) -> Seq<char>
    decreases upto,
{
    if upto == 0 {
        Seq::empty()
    } else {
        numbered_lines((upto - 1) as nat, width) + right_aligned(upto, width) + seq!['\n']
    }
}

/// The gutter text for `total` lines: every number as wide as the largest.
pub open spec fn gutter_text(total: nat) -> Seq<char> {
    numbered_lines(total, decimal(total).len())
}

proof fn lemma_decimal_len_mono(x: nat, y: nat)
    requires
        x <= y,
    ensures
        decimal(x).len() <= decimal(y).len(),
    decreases y,
{
    if y >= 10 && x >= 10 {
        lemma_decimal_len_mono(x / 10, y / 10);
    }
}

fn push_digit(s: &mut String, d: usize)
    requires
        d < 10,
    ensures
        final(s)@ == old(s)@.push(digit_char(d as nat)),
{
    let digit = if d == 0 {
        "0"
    } else if d == 1 {
        "1"
    } else if d == 2 {
        "2"
    } else if d == 3 {
        "3"
    } else if d == 4 {
        "4"
    } else if d == 5 {
        "5"
    } else if d == 6 {
        "6"
    } else if d == 7 {
        "7"
    } else if d == 8 {
        "8"
    } else {
        "9"
    };
    proof {
        reveal_strlit("0");
        reveal_strlit("1");
        reveal_strlit("2");
        reveal_strlit("3");
        reveal_strlit("4");
        reveal_strlit("5");
        reveal_strlit("6");
        reveal_strlit("7");
        reveal_strlit("8");
        reveal_strlit("9");
    }
    s.append(digit);
    assert(s@ =~= old(s)@.push(digit_char(d as nat)));
}

/// Appends `x` in decimal.
pub fn push_decimal(s: &mut String, x: usize)
    ensures
        final(s)@ == old(s)@ + decimal(x as nat),
    decreases x,
{
    if x >= 10 {
        push_decimal(s, x / 10);
    }
    push_digit(s, x % 10);
    assert(s@ =~= old(s)@ + decimal(x as nat));
}

fn decimal_len(x: usize) -> (r: usize)
    ensures
        r == decimal(x as nat).len(),
    decreases x,
{
    if x < 10 {
        1
    } else {
        let n = decimal_len(x / 10);
        proof {
            lemma_decimal_len_bound((x / 10) as nat);
        }
        n + 1
    }
}

proof fn lemma_decimal_len_bound(x: nat)
    ensures
        decimal(x).len() <= x + 1,
    decreases x,
{
    if x >= 10 {
        lemma_decimal_len_bound(x / 10);
    }
}

/// The gutter text for `total_lines` lines.
fn build_gutter(total_lines: usize) -> (r: String)
    ensures
        r@ == gutter_text(total_lines as nat),
{
    let width = decimal_len(total_lines);
    let mut text = String::new();
    let mut done: usize = 0;
    while done < total_lines
        invariant
            done <= total_lines,
            width == decimal(total_lines as nat).len(),
            text@ == numbered_lines(done as nat, width as nat),
        decreases total_lines - done,
    {
        let line = done + 1;
        let ghost before = text@;
        let len = decimal_len(line);
        proof {
            lemma_decimal_len_mono(line as nat, total_lines as nat);
            reveal_strlit(" ");
            reveal_strlit("\n");
        }
        let mut pad: usize = len;
        while pad < width
            invariant
                len <= pad <= width,
                text@ == before + Seq::new((pad - len) as nat, |i: int| ' '),
            decreases width - pad,
        {
            proof {
                reveal_strlit(" ");
            }
            text.append(" ");
            assert(text@ =~= before + Seq::new((pad + 1 - len) as nat, |i: int| ' '));
            pad = pad + 1;
        }
        push_decimal(&mut text, line);
        text.append("\n");
        assert(text@ =~= numbered_lines(line as nat, width as nat));
        done = line;
    }
    text
}

/// The cache holds the gutter text for the count it records.
pub open spec fn cache_consistent(cache: Option<(usize, String)>) -> bool {
    cache matches Some((n, text)) ==> text@ == gutter_text(n as nat)
}

/// The gutter text for `total_lines` lines, kept in `cache` with the count
/// it was made for: rebuilt only when the count changes, else returned as
/// it is. A cache filled only by this function therefore always yields the
/// gutter for `total_lines`.
pub fn line_numbers(cache: &mut Option<(usize, String)>, total_lines: usize) -> (r: &str)
    ensures
        match *old(cache) {
            Some((n, text)) => n == total_lines ==> *final(cache) == *old(cache) && r@ == text@,
            None => true,
        },
        !(*old(cache) matches Some((n, _)) && n == total_lines) ==> (r@ == gutter_text(
            total_lines as nat,
        ) && (*final(cache) matches Some((n, text)) && n == total_lines && text@ == r@)),
        cache_consistent(*old(cache)) ==> cache_consistent(*final(cache)) && r@ == gutter_text(
            total_lines as nat,
        ),
{
    let stale = match cache {
        Some((n, _)) => *n != total_lines,
        None => true,
    };
    if stale {
        *cache = Some((total_lines, build_gutter(total_lines)));
    }
    match cache {
        Some((_, t)) => t.as_str(),
        None => "",
    }
}

} // verus!
