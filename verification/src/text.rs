//! The text of a port number, of a connection target and of the final listing.

use vstd::prelude::*;
use vstd::string::*;

verus! {

/// The character of one decimal digit.
pub open spec fn digit_char(d: nat) -> char {
    if d == 0 {
        '0'
    } else if d == 1 {
        '1'
    } else if d == 2 {
        '2'
    } else if d == 3 {
        '3'
    } else if d == 4 {
        '4'
    } else if d == 5 {
        '5'
    } else if d == 6 {
        '6'
    } else if d == 7 {
        '7'
    } else if d == 8 {
        '8'
    } else {
        '9'
    }
}

/// A number in decimal digits, without leading zeros.
pub open spec fn decimal(n: nat) -> Seq<char>
    decreases n,
{
    if n < 10 {
        seq![digit_char(n)]
    } else {
        decimal(n / 10).push(digit_char(n % 10))
    }
}

/// The text that stands for a connection target: the address, a colon, the port.
pub open spec fn target_text(address: Seq<char>, port: u16) -> Seq<char> {
    address + seq![':'] + decimal(port as nat)
}

/// One line of the final listing, without its line break.
pub open spec fn line_text(port: u16) -> Seq<char> {
    decimal(port as nat) + " is open"@
}

/// The lines of the final listing, each closed by a line break.
pub open spec fn listing_text(ports: Seq<u16>) -> Seq<char>
    decreases ports.len(),
{
    if ports.len() == 0 {
        Seq::empty()
    } else {
        listing_text(ports.drop_last()) + line_text(ports.last()) + seq!['\n']
    }
}

/// What a finished sweep prints: an empty line, then the listing.
pub open spec fn output_text(ports: Seq<u16>) -> Seq<char> {
    seq!['\n'] + listing_text(ports)
}

fn digit_str(d: u16) -> (r: &'static str)
    requires
        d < 10,
    ensures
        r@ == seq![digit_char(d as nat)],
{
    proof {
        reveal_strlit("0");
        reveal_strlit("1");
        reveal_strlit("2");
        reveal_strlit("3");
        reveal_strlit("4");
        reveal_strlit("5");
        reveal_strlit("6");
        reveal_strlit("7");
        reveal_strlit("8");
        reveal_strlit("9");
    }
    let r = if d == 0 {
        "0"
    } else if d == 1 {
        "1"
    } else if d == 2 {
        "2"
    } else if d == 3 {
        "3"
    } else if d == 4 {
        "4"
    } else if d == 5 {
        "5"
    } else if d == 6 {
        "6"
    } else if d == 7 {
        "7"
    } else if d == 8 {
        "8"
    } else {
        "9"
    };
    assert(r@ =~= seq![digit_char(d as nat)]);
    r
}

/// The port number in decimal digits.
pub fn port_text(port: u16) -> (r: String)
    ensures
        r@ == decimal(port as nat),
    decreases port,
{
    if port < 10 {
        String::from_str(digit_str(port))
    } else {
        let mut r = port_text(port / 10);
        r.append(digit_str(port % 10));
        assert(r@ =~= decimal(port as nat));
        r
    }
}

/// The target that one scan connects to, such as `127.0.0.1:8001`.
pub fn scan_target(address: &str, port: u16) -> (r: String)
    ensures
        r@ == target_text(address@, port),
{
    proof {
        reveal_strlit(":");
    }
    let mut r = String::from_str(address);
    r.append(":");
    let digits = port_text(port);
    r.append(digits.as_str());
    assert(r@ =~= target_text(address@, port));
    r
}

/// The line that reports one open port, such as `8001 is open`.
pub fn listing_line(port: u16) -> (r: String)
    ensures
        r@ == line_text(port),
{
    let mut r = port_text(port);
    r.append(" is open");
    r
}

/// The whole text that is printed once the sweep is over: an empty line, then
/// one line for each port of `ports`, in the order of `ports`.
pub fn final_output(ports: &Vec<u16>) -> (r: String)
    ensures
        r@ == output_text(ports@),
{
    proof {
        reveal_strlit("\n");
    }
    let mut r = String::from_str("\n");
    let mut i: usize = 0;
    while i < ports.len()
        invariant
            i <= ports.len(),
            r@ == seq!['\n'] + listing_text(ports@.take(i as int)),
            "\n"@ == seq!['\n'],
        decreases ports.len() - i,
    {
        let line = listing_line(ports[i]);
        r.append(line.as_str());
        r.append("\n");
        proof {
            let next = ports@.take(i + 1);
            assert(next.drop_last() =~= ports@.take(i as int));
            assert(next.last() == ports@[i as int]);
            assert(r@ =~= seq!['\n'] + listing_text(next));
        }
        i = i + 1;
    }
    assert(ports@.take(i as int) =~= ports@);
    r
}

} // verus!
