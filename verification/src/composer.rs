//! Composes the text of a notification.

use vstd::prelude::*;
use vstd::string::StringExecFns;

verus! {

/// The texts of a list of strings.
pub open spec fn texts(names: Seq<String>) -> Seq<Seq<char>> {
    Seq::new(names.len(), |i: int| names[i]@)
}

/// One line for each name: a line break, a dash, a space and the name.
pub open spec fn bullet_lines(names: Seq<Seq<char>>) -> Seq<char>
    decreases names.len(),
{
    if names.len() == 0 {
        Seq::empty()
    } else {
        bullet_lines(names.drop_last()) + "\n- "@ + names.last()
    }
}

/// A section of the message: nothing where there are no names, else the
/// heading after an empty line, and the names below it.
pub open spec fn section(heading: Seq<char>, names: Seq<Seq<char>>) -> Seq<char> {
    if names.len() == 0 {
        Seq::empty()
    } else {
        "\n\n"@ + heading + bullet_lines(names)
    }
}

/// The text for a trade: the trade id, then the section of what was received
/// and the section of what was given, each left out where it would be empty.
pub open spec fn message_text(
    tradeid: Seq<char>,
    received: Seq<Seq<char>>,
    given: Seq<Seq<char>>,
) -> Seq<char> {
    "Trade ID: "@ + tradeid + section("<b>Received:</b>"@, received) + section(
        "<b>Given:</b>"@,
        given,
    )
}

/// The text that is sent for an account: a line that names the account, then
/// the text for the trade.
pub open spec fn account_message_text(account: Seq<char>, body: Seq<char>) -> Seq<char> {
    "<b>Account: "@ + account + "</b>\n"@ + body
}

/// Appends the section of `names` under `heading` to `message`.
fn append_section(message: &mut String, heading: &str, names: &Vec<String>)
    ensures
        final(message)@ == old(message)@ + section(heading@, texts(names@)),
{
    let ghost start = message@;
    let ghost all = texts(names@);
    if names.len() == 0 {
        assert(start + section(heading@, all) =~= start);
        return ;
    }
    message.append("\n\n");
    message.append(heading);
    let mut i: usize = 0;
    assert(all.take(0) =~= Seq::<Seq<char>>::empty());
    assert(message@ =~= start + ("\n\n"@ + heading@ + bullet_lines(all.take(0))));
    while i < names.len()
        invariant
            i <= names.len(),
            all == texts(names@),
            message@ == start + ("\n\n"@ + heading@ + bullet_lines(all.take(i as int))),
        decreases names.len() - i,
    {
        let ghost before = message@;
        message.append("\n- ");
        message.append(names[i].as_str());
        proof {
            let upto = all.take(i as int);
            let next = all.take(i + 1);
            assert(next.drop_last() =~= upto);
            assert(next.last() == names[i as int]@);
            assert(message@ =~= start + ("\n\n"@ + heading@ + bullet_lines(next)));
        }
        i += 1;
    }
    assert(all.take(names.len() as int) =~= all);
}

/// The text for a trade with the given id, from the names of the assets
/// received and given.
pub fn compose_message(tradeid: &str, received: &Vec<String>, given: &Vec<String>) -> (message:
    String)
    ensures
        message@ == message_text(tradeid@, texts(received@), texts(given@)),
{
    let mut message = String::from_str("Trade ID: ");
    message.append(tradeid);
    append_section(&mut message, "<b>Received:</b>", received);
    append_section(&mut message, "<b>Given:</b>", given);
    message
}

/// The text that is sent for an account.
pub fn account_message(account_name: &str, body: &str) -> (message: String)
    ensures
        message@ == account_message_text(account_name@, body@),
{
    let mut message = String::from_str("<b>Account: ");
    message.append(account_name);
    message.append("</b>\n");
    message.append(body);
    message
}

} // verus!
