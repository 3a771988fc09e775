//! Wire text: decimal rendering of identities, line framing and the three
//! kinds of line that the relay publishes.
use vstd::prelude::*;
use vstd::string::*;

verus! {

/// The character of a decimal digit.
pub open spec fn digit_char(d: nat) -> char {
    if d == 0 {
        '0'
    } else if d == 1 {
        '1'
    } else if d == 2 {
        '2'
    } else if d == 3 {
        '3'
    } else if d == 4 {
        '4'
    } else if d == 5 {
        '5'
    } else if d == 6 {
        '6'
    } else if d == 7 {
        '7'
    } else if d == 8 {
        '8'
    } else {
        '9'
    }
}

/// The decimal digits of `n`, most significant first, without leading zeros.
pub open spec fn decimal(n: nat) -> Seq<char>
    decreases n,
{
    if n < 10 {
        seq![digit_char(n)]
    } else {
        decimal(n / 10).push(digit_char(n % 10))
    }
}

/// A line as read from the transport, without its trailing delimiter.
pub open spec fn stripped(raw: Seq<char>) -> Seq<char> {
    if raw.len() > 0 && raw.last() == '\n' {
        raw.drop_last()
    } else {
        raw
    }
}

/// A message as written to the transport, with its delimiter.
pub open spec fn framed(msg: Seq<char>) -> Seq<char> {
    msg.push('\n')
}

/// The label of a client: `Client #<id>`.
pub open spec fn client_label(id: nat) -> Seq<char> {
    "Client #"@ + decimal(id)
}

/// A chat line: `Client #<id>: <line>`.
pub open spec fn chat_text(id: nat, line: Seq<char>) -> Seq<char> {
    client_label(id) + ": "@ + line
}

/// The announcement that a client joined.
pub open spec fn join_text(id: nat) -> Seq<char> {
    ">>> "@ + client_label(id) + " has joined the chat!"@
}

/// The announcement that a client left.
pub open spec fn leave_text(id: nat) -> Seq<char> {
    "<<< "@ + client_label(id) + " has left the chat."@
}

/// Whether `msg` was published by client `id` itself: its join announcement,
/// or a chat line, which carries its sender's label. Leave announcements are
/// never seen by their own session.
pub open spec fn own_text(id: nat, msg: Seq<char>) -> bool {
    msg == join_text(id) || (client_label(id) + ": "@).is_prefix_of(msg)
}

fn digit_str(d: u64) -> (r: &'static str)
    requires
        d < 10,
    ensures
        r@ == seq![digit_char(d as nat)],
{
    if d == 0 {
        proof { reveal_strlit("0"); }
        "0"
    } else if d == 1 {
        proof { reveal_strlit("1"); }
        "1"
    } else if d == 2 {
        proof { reveal_strlit("2"); }
        "2"
    } else if d == 3 {
        proof { reveal_strlit("3"); }
        "3"
    } else if d == 4 {
        proof { reveal_strlit("4"); }
        "4"
    } else if d == 5 {
        proof { reveal_strlit("5"); }
        "5"
    } else if d == 6 {
        proof { reveal_strlit("6"); }
        "6"
    } else if d == 7 {
        proof { reveal_strlit("7"); }
        "7"
    } else if d == 8 {
        proof { reveal_strlit("8"); }
        "8"
    } else {
        proof { reveal_strlit("9"); }
        "9"
    }
}

/// Renders `n` in decimal.
pub fn render_decimal(n: u64) -> (r: String)
    ensures
        r@ == decimal(n as nat),
    decreases n,
{
    if n < 10 {
        String::from_str(digit_str(n))
    } else {
        let mut r = render_decimal(n / 10);
        r.append(digit_str(n % 10));
        r
    }
}

/// Removes the trailing `\n` of a line read from the transport, if it has one.
pub fn strip_line(raw: &str) -> (r: String)
    ensures
        r@ == stripped(raw@),
{
    let n = raw.unicode_len();
    if n > 0 && raw.get_char(n - 1) == '\n' {
        String::from_str(raw.substring_char(0, n - 1))
    } else {
        String::from_str(raw)
    }
}

/// Appends the line delimiter to a message before it is written.
pub fn frame_line(msg: &str) -> (r: String)
    ensures
        r@ == framed(msg@),
{
    let r = String::from_str(msg).concat("\n");
    proof {
        reveal_strlit("\n");
        assert(r@ =~= framed(msg@));
    }
    r
}

fn client_label_of(id: u64) -> (r: String)
    ensures
        r@ == client_label(id as nat),
{
    let digits = render_decimal(id);
    String::from_str("Client #").concat(digits.as_str())
}

/// Whether `msg` was published by client `id` itself.
pub fn is_own_line(id: u64, msg: &str) -> (r: bool)
    ensures
        r == own_text(id as nat, msg@),
{
    let join = join_line(id);
    if join.as_str().unicode_len() == msg.unicode_len() && join == String::from_str(msg) {
        return true;
    }
    let prefix = client_label_of(id).concat(": ");
    let n = prefix.as_str().unicode_len();
    if msg.unicode_len() < n {
        proof {
            assert(!(client_label(id as nat) + ": "@).is_prefix_of(msg@));
        }
        return false;
    }
    let head = String::from_str(msg.substring_char(0, n));
    let r = head == prefix;
    proof {
        if r {
            assert(head@ =~= msg@.subrange(0, n as int));
        }
    }
    r
}

/// The chat line that a client's raw input line becomes.
pub fn chat_line(id: u64, raw: &str) -> (r: String)
    ensures
        r@ == chat_text(id as nat, stripped(raw@)),
{
    let line = strip_line(raw);
    let r = client_label_of(id).concat(": ").concat(line.as_str());
    proof {
        assert(r@ =~= chat_text(id as nat, stripped(raw@)));
    }
    r
}

/// The announcement published when a client joins.
pub fn join_line(id: u64) -> (r: String)
    ensures
        r@ == join_text(id as nat),
{
    let label = client_label_of(id);
    let r = String::from_str(">>> ").concat(label.as_str()).concat(" has joined the chat!");
    proof {
        assert(r@ =~= join_text(id as nat));
    }
    r
}

/// The announcement published when a client leaves.
pub fn leave_line(id: u64) -> (r: String)
    ensures
        r@ == leave_text(id as nat),
{
    let label = client_label_of(id);
    let r = String::from_str("<<< ").concat(label.as_str()).concat(" has left the chat.");
    proof {
        assert(r@ =~= leave_text(id as nat));
    }
    r
}

} // verus!
