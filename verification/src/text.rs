//! Plain-text rendering for the textual endpoints: decimal numbers for the
//! size endpoint and newline-terminated id lines for the id listing.

use vstd::prelude::*;
use vstd::string::StrSliceExecFns;
use vstd::string::StringExecFns;

verus! {

/// The decimal digit character for a value below ten.
pub open spec fn dec_digit(d: int) -> char {
    if d == 0 {
        '0'
    } else if d == 1 {
        '1'
    } else if d == 2 {
        '2'
    } else if d == 3 {
        '3'
    } else if d == 4 {
        '4'
    } else if d == 5 {
        '5'
    } else if d == 6 {
        '6'
    } else if d == 7 {
        '7'
    } else if d == 8 {
        '8'
    } else {
        '9'
    }
}

/// The decimal rendering of a number, without leading zeros (a lone zero for
/// zero itself).
pub open spec fn dec_str_spec(n: nat) -> Seq<char>
    decreases n,
{
    if n < 10 {
        seq![dec_digit(n as int)]
    } else {
        dec_str_spec(n / 10).push(dec_digit((n % 10) as int))
    }
}

fn dec_digit_str(d: u64) -> (s: String)
    requires
        d < 10,
    ensures
        s@ == seq![dec_digit(d as int)],
{
    proof {
        reveal_strlit("0");
        reveal_strlit("1");
        reveal_strlit("2");
        reveal_strlit("3");
        reveal_strlit("4");
        reveal_strlit("5");
        reveal_strlit("6");
        reveal_strlit("7");
        reveal_strlit("8");
        reveal_strlit("9");
    }
    if d == 0 {
        String::from_str("0")
    } else if d == 1 {
        String::from_str("1")
    } else if d == 2 {
        String::from_str("2")
    } else if d == 3 {
        String::from_str("3")
    } else if d == 4 {
        String::from_str("4")
    } else if d == 5 {
        String::from_str("5")
    } else if d == 6 {
        String::from_str("6")
    } else if d == 7 {
        String::from_str("7")
    } else if d == 8 {
        String::from_str("8")
    } else {
        String::from_str("9")
    }
}

/// The decimal rendering of a 64-bit number.
pub fn u64_to_dec_string(n: u64) -> (s: String)
    ensures
        s@ == dec_str_spec(n as nat),
    decreases n,
{
    if n < 10 {
        dec_digit_str(n)
    } else {
        let mut s = u64_to_dec_string(n / 10);
        let d = dec_digit_str(n % 10);
        s.append(d.as_str());
        proof {
            assert(s@ =~= dec_str_spec((n / 10) as nat).push(dec_digit((n % 10) as int)));
        }
        s
    }
}

/// The decimal rendering of a 32-bit number, as the size endpoint serves it.
pub fn u32_to_dec_string(n: u32) -> (s: String)
    ensures
        s@ == dec_str_spec(n as nat),
{
    u64_to_dec_string(n as u64)
}

/// The id listing: every id in turn, each terminated by a line feed.
pub open spec fn ids_lines_spec(ids: Seq<Seq<char>>) -> Seq<char>
    decreases ids.len(),
{
    if ids.len() == 0 {
        Seq::empty()
    } else {
        ids[0] + seq!['\n'] + ids_lines_spec(ids.drop_first())
    }
}

/// One line of the id listing: the id and a line feed.
pub fn id_line(id: &String) -> (r: String)
    ensures
        r@ == id@ + seq!['\n'],
{
    let mut r = id.clone();
    r.append("\n");
    proof {
        reveal_strlit("\n");
        assert(r@ =~= id@ + seq!['\n']);
    }
    r
}

/// The whole id listing for a snapshot of ids.
pub fn txs_ids_body(ids: &Vec<String>) -> (r: String)
    ensures
        r@ == ids_lines_spec(ids@.map_values(|s: String| s@)),
{
    let ghost views = ids@.map_values(|s: String| s@);
    let mut r = String::new();
    proof {
        assert(views.skip(0) =~= views);
        assert(r@ + ids_lines_spec(views) =~= ids_lines_spec(views));
    }
    let mut i: usize = 0;
    while i < ids.len()
        invariant
            i <= ids@.len(),
            views == ids@.map_values(|s: String| s@),
            views.len() == ids@.len(),
            r@ + ids_lines_spec(views.skip(i as int)) == ids_lines_spec(views),
        decreases ids@.len() - i,
    {
        let ghost r0 = r@;
        let line = id_line(&ids[i]);
        r.append(line.as_str());
        proof {
            let rem = views.skip(i as int);
            assert(rem[0] == views[i as int]);
            assert(rem.drop_first() =~= views.skip(i + 1));
            assert(ids_lines_spec(rem) == views[i as int] + seq!['\n'] + ids_lines_spec(
                views.skip(i + 1),
            ));
            assert(r0 + ids_lines_spec(rem) =~= (r0 + (views[i as int] + seq!['\n']))
                + ids_lines_spec(views.skip(i + 1)));
        }
        i = i + 1;
    }
    proof {
        assert(views.skip(views.len() as int) =~= Seq::<Seq<char>>::empty());
        assert(r@ + Seq::<char>::empty() =~= r@);
    }
    r
}

} // verus!
