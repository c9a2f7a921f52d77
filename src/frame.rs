use vstd::prelude::*;
use crate::score::ScoreData;

verus! {

pub open spec fn digit_char(d: nat) -> char {
    seq!['0', '1', '2', '3', '4', '5', '6', '7', '8', '9'][d as int]
}

/// The decimal digits of `n`, without leading zeros.
pub open spec fn decimal(n: nat) -> Seq<char>
    decreases n,
{
    if n < 10 {
        seq![digit_char(n)]
    } else {
        decimal(n / 10).push(digit_char(n % 10))
    }
}

/// The JSON object of a score: `{"score":{"team1":<n>,"team2":<m>}}`.
pub open spec fn score_json(v: ScoreData) -> Seq<char> {
    "{\"score\":{\"team1\":"@ + decimal(v.score.team1 as nat) + ",\"team2\":"@ + decimal(
        v.score.team2 as nat,
    ) + "}}"@
}

/// The payload that stands in for a value that could not be rendered.
pub open spec fn inert_payload() -> Seq<char> {
    "{}"@
}

/// One self-delimited event frame: `data: <payload>` and a blank line.
pub open spec fn event_frame(payload: Seq<char>) -> Seq<char> {
    "data: "@ + payload + "\n\n"@
}

/// Relies on `serde_json::to_string` on a `u32`: the integer is written as
/// its decimal digits (itoa's output) into a `Vec<u8>`, which cannot fail.
#[verifier::external_body]
fn json_number(n: u32) -> (r: Option<String>)
    ensures
        r is Some,
        r->0@ == decimal(n as nat),
{
    serde_json::to_string(&n).ok()
}

/// The frame for `payload`; without one, the frame of an empty object, so
/// that a client still sees a frame boundary.
pub fn frame(payload: Option<&str>) -> (r: String)
    ensures
        r@ == event_frame(
            match payload {
                Some(p) => p@,
                None => inert_payload(),
            },
        ),
{
    let mut r = String::from_str("data: ");
    match payload {
        Some(p) => r.append(p),
        None => r.append("{}"),
    }
    r.append("\n\n");
    r
}

/// The JSON text of a score, when every part of it could be rendered.
pub fn render_json(v: &ScoreData) -> (r: Option<String>)
    ensures
        r is Some,
        r->0@ == score_json(*v),
{
    let n1 = json_number(v.score.team1);
    let n2 = json_number(v.score.team2);
    match (n1, n2) {
        (Some(a), Some(b)) => {
            let mut r = String::from_str("{\"score\":{\"team1\":");
            r.append(a.as_str());
            r.append(",\"team2\":");
            r.append(b.as_str());
            r.append("}}");
            Some(r)
        },
        _ => None,
    }
}

/// The event frame that carries a score to a client.
pub fn score_frame(v: &ScoreData) -> (r: String)
    ensures
        r@ == event_frame(score_json(*v)),
{
    match render_json(v) {
        Some(s) => frame(Some(s.as_str())),
        None => frame(None),
    }
}

} // verus!
