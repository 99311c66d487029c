//! The address of the consent page, which carries the listener's port.
use crate::text::{lemma_split_on_append, lemma_split_on_whole, split_on};
use vstd::prelude::*;
use vstd::string::*;

verus! {

/// The decimal digit for `d`, which is below ten.
pub open spec fn digit(d: nat) -> char {
    if d == 0 {
        '0'
    } else if d == 1 {
        '1'
    } else if d == 2 {
        '2'
    } else if d == 3 {
        '3'
    } else if d == 4 {
        '4'
    } else if d == 5 {
        '5'
    } else if d == 6 {
        '6'
    } else if d == 7 {
        '7'
    } else if d == 8 {
        '8'
    } else {
        '9'
    }
}

/// The number a decimal digit stands for; zero for any other character.
pub open spec fn digit_value(c: char) -> nat {
    if c == '1' {
        1
    } else if c == '2' {
        2
    } else if c == '3' {
        3
    } else if c == '4' {
        4
    } else if c == '5' {
        5
    } else if c == '6' {
        6
    } else if c == '7' {
        7
    } else if c == '8' {
        8
    } else if c == '9' {
        9
    } else {
        0
    }
}

/// `n` written in decimal, without sign or leading zeros.
pub open spec fn decimal(n: nat) -> Seq<char>
    decreases n,
{
    if n < 10 {
        seq![digit(n)]
    } else {
        decimal(n / 10).push(digit(n % 10))
    }
}

/// The number that a run of decimal digits denotes.
pub open spec fn decimal_value(s: Seq<char>) -> nat
    decreases s.len(),
{
    if s.len() == 0 {
        0
    } else {
        decimal_value(s.drop_last()) * 10 + digit_value(s.last())
    }
}

/// The consent page, without its query.
pub open spec fn consent_page() -> Seq<char> {
    "https://yogu.pro/auth/login/native_app"@
}

/// The query key under which the consent page is told the port.
pub open spec fn port_key() -> Seq<char> {
    "native_app_port"@
}

/// The query of the consent address for a listener on `port`.
pub open spec fn consent_query(port: u16) -> Seq<char> {
    port_key().push('=') + decimal(port as nat)
}

/// The whole consent address for a listener on `port`.
pub open spec fn consent_url_text(port: u16) -> Seq<char> {
    consent_page().push('?') + consent_query(port)
}

/// One decimal digit as text.
fn digit_str(d: u16) -> (s: &'static str)
    requires
        d < 10,
    ensures
        s@ == seq![digit(d as nat)],
{
    proof {
        reveal_strlit("0");
        reveal_strlit("1");
        reveal_strlit("2");
        reveal_strlit("3");
        reveal_strlit("4");
        reveal_strlit("5");
        reveal_strlit("6");
        reveal_strlit("7");
        reveal_strlit("8");
        reveal_strlit("9");
    }
    let s = if d == 0 {
        "0"
    } else if d == 1 {
        "1"
    } else if d == 2 {
        "2"
    } else if d == 3 {
        "3"
    } else if d == 4 {
        "4"
    } else if d == 5 {
        "5"
    } else if d == 6 {
        "6"
    } else if d == 7 {
        "7"
    } else if d == 8 {
        "8"
    } else {
        "9"
    };
    proof {
        assert(s@ =~= seq![digit(d as nat)]);
    }
    s
}

/// Writes `n` in decimal at the end of `out`.
fn push_decimal(out: &mut String, n: u16)
    ensures
        final(out)@ == old(out)@ + decimal(n as nat),
    decreases n,
{
    if n >= 10 {
        push_decimal(out, n / 10);
    }
    out.append(digit_str(n % 10));
    proof {
        if n >= 10 {
            assert(old(out)@ + decimal((n / 10) as nat) + seq![digit((n % 10) as nat)] =~= old(
                out,
            )@ + decimal(n as nat));
        }
    }
}

/// The address to open in the browser for a listener bound to `port`.
pub fn consent_url(port: u16) -> (url: String)
    ensures
        url@ == consent_url_text(port),
{
    proof {
        reveal_strlit("?");
        reveal_strlit("=");
    }
    let mut url = String::from_str("https://yogu.pro/auth/login/native_app");
    url.append("?");
    url.append("native_app_port");
    url.append("=");
    push_decimal(&mut url, port);
    proof {
        assert(url@ =~= consent_url_text(port));
    }
    url
}

/// Decimal text is made of digits only and reads back as the number it
/// was written from.
pub proof fn lemma_decimal_reads_back(n: nat)
    ensures
        decimal_value(decimal(n)) == n,
        decimal(n).len() >= 1,
        forall|k: int| 0 <= k < decimal(n).len() ==> '0' <= #[trigger] decimal(n)[k] <= '9',
    decreases n,
{
    if n < 10 {
        assert(decimal(n).drop_last() =~= Seq::<char>::empty());
        assert(decimal_value(decimal(n).drop_last()) == 0);
    } else {
        lemma_decimal_reads_back(n / 10);
        assert(decimal(n).drop_last() =~= decimal(n / 10));
    }
}

/// The query of the consent address is the single pair
/// `native_app_port=<port>`, with the port in decimal: cut at `=` it gives
/// the key and a text that reads back as the port.
pub proof fn lemma_consent_query_names_port(port: u16)
    ensures
        split_on(consent_query(port), '=') == seq![port_key(), decimal(port as nat)],
        decimal_value(decimal(port as nat)) == port,
{
    reveal_strlit("native_app_port");
    let key = port_key();
    let digits = decimal(port as nat);
    lemma_decimal_reads_back(port as nat);
    assert(!digits.contains('=')) by {
        if digits.contains('=') {
            let k = choose|k: int| 0 <= k < digits.len() && digits[k] == '=';
            assert('0' <= digits[k] <= '9');
        }
    }
    assert(!key.contains('=')) by {
        assert(key.len() == 15);
        assert forall|k: int| 0 <= k < key.len() implies key[k] != '=' by {}
    }
    lemma_split_on_append(key, digits, '=');
    lemma_split_on_whole(key, '=');
    assert(split_on(consent_query(port), '=') =~= seq![key, digits]);
}

/// Listeners on different ports get different consent addresses.
pub proof fn lemma_consent_url_tells_ports_apart(p: u16, q: u16)
    requires
        consent_url_text(p) == consent_url_text(q),
    ensures
        p == q,
{
    let stem = consent_page().push('?') + port_key().push('=');
    let a = decimal(p as nat);
    let b = decimal(q as nat);
    assert(consent_url_text(p) =~= stem + a);
    assert(consent_url_text(q) =~= stem + b);
    assert(a =~= (stem + a).subrange(stem.len() as int, (stem + a).len() as int));
    assert(b =~= (stem + b).subrange(stem.len() as int, (stem + b).len() as int));
    lemma_decimal_reads_back(p as nat);
    lemma_decimal_reads_back(q as nat);
}

} // verus!
