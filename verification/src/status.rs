//! The status of the supervised process, and how it is told to clients.
use crate::decimal;
use crate::outside::signal;
use crate::outside::watch as channel;
use nix::sys::signal::Signal;
use tokio::sync::watch;
use vstd::arithmetic::power::pow;
use vstd::prelude::*;

verus! {

/// How a process ended.
pub enum ExitStatus {
    /// By itself, with this code.
    Exited(i32),
    /// By this signal.
    Signaled(Signal),
}

/// How the supervised process fares.
pub enum EntrypointStatus {
    /// It runs.
    Running,
    /// It ended.
    Exited(ExitStatus),
    /// It could not be run, for this reason.
    Fatal(String),
}

/// `text` is one line: it ends in a line break, and holds no other.
pub open spec fn is_line(text: Seq<char>) -> bool {
    &&& text.len() > 0
    &&& forall|i: int| 0 <= i < text.len() ==> (#[trigger] text[i] == '\n' <==> i == text.len() - 1)
}

/// The status line of a process that was ended by the signal of this name.
pub open spec fn signaled_json(name: Seq<char>) -> Seq<char> {
    "{ \"status\": \"signaled\", \"signal\": \""@ + name + "\" }\n"@
}

impl EntrypointStatus {
    /// The status as a JSON object.
    pub open spec fn json(self) -> Seq<char> {
        match self {
            EntrypointStatus::Running => "{ \"status\": \"running\" }\n"@,
            EntrypointStatus::Exited(ExitStatus::Exited(code)) => {
                "{ \"status\": \"exited\", \"code\": "@ + decimal::signed_decimal(code as int)
                    + " }\n"@
            },
            EntrypointStatus::Exited(ExitStatus::Signaled(sig)) => signaled_json(
                signal::signal_name(sig),
            ),
            EntrypointStatus::Fatal(err) => {
                "{ \"status\": \"fatal\", \"error\": \""@ + err@ + "\" }\n"@
            },
        }
    }

    /// The status as a JSON object, on a line of its own. The reason for a fatal error stands in it
    /// as it is, so it is one line only where the reason holds no line break.
    pub fn as_json(&self) -> (text: String)
        ensures
            text@ == self.json(),
            self is Running ==> text@ == "{ \"status\": \"running\" }\n"@,
            self matches EntrypointStatus::Exited(ExitStatus::Exited(code)) ==> text@
                == "{ \"status\": \"exited\", \"code\": "@ + decimal::signed_decimal(*code as int)
                + " }\n"@,
            self matches EntrypointStatus::Exited(ExitStatus::Signaled(sig)) ==> text@
                == "{ \"status\": \"signaled\", \"signal\": \""@ + signal::signal_name(*sig)
                + "\" }\n"@,
            self matches EntrypointStatus::Fatal(err) ==> text@
                == "{ \"status\": \"fatal\", \"error\": \""@ + err@ + "\" }\n"@,
            self matches EntrypointStatus::Fatal(err) ==> (!err@.contains('\n') ==> is_line(text@)),
            !(self is Fatal) ==> is_line(text@),
    {
        match self {
            EntrypointStatus::Running => {
                proof {
                    reveal_strlit("{ \"status\": \"running\" }\n");
                }
                "{ \"status\": \"running\" }\n".to_owned()
            },
            EntrypointStatus::Exited(exit_status) => match exit_status {
                ExitStatus::Exited(code) => {
                    let mut text: String = "{ \"status\": \"exited\", \"code\": ".to_owned();
                    decimal::push_signed_decimal(&mut text, *code);
                    text.append(" }\n");
                    proof {
                        reveal_strlit("{ \"status\": \"exited\", \"code\": ");
                        reveal_strlit(" }\n");
                        if *code < 0 {
                            decimal::lemma_decimal_chars((-*code) as nat);
                        } else {
                            decimal::lemma_decimal_chars(*code as nat);
                        }
                    }
                    text
                },
                ExitStatus::Signaled(sig) => signaled_line(&signal::signal_text(sig)),
            },
            EntrypointStatus::Fatal(err) => {
                let mut text: String = "{ \"status\": \"fatal\", \"error\": \"".to_owned();
                text.append(err.as_str());
                text.append("\" }\n");
                proof {
                    reveal_strlit("{ \"status\": \"fatal\", \"error\": \"");
                    reveal_strlit("\" }\n");
                }
                text
            },
        }
    }
}

/// The status line of a process that was ended by the signal of this name.
pub fn signaled_line(name: &String) -> (text: String)
    ensures
        text@ == signaled_json(name@),
        text@ == "{ \"status\": \"signaled\", \"signal\": \""@ + name@ + "\" }\n"@,
        !name@.contains('\n') ==> is_line(text@),
{
    let mut text: String = "{ \"status\": \"signaled\", \"signal\": \"".to_owned();
    text.append(name.as_str());
    text.append("\" }\n");
    proof {
        reveal_strlit("{ \"status\": \"signaled\", \"signal\": \"");
        reveal_strlit("\" }\n");
    }
    text
}

/// The status of the supervised process, with those who wait for a change of it.
pub struct AppStatusInner {
    status: EntrypointStatus,
    watch_tx: watch::Sender<()>,
    watch_rx: watch::Receiver<()>,
}

impl View for AppStatusInner {
    type V = EntrypointStatus;

    closed spec fn view(&self) -> EntrypointStatus {
        self.status
    }
}

impl AppStatusInner {
    /// Every status that `new` made and the other methods changed is well-formed.
    pub closed spec fn wf(&self) -> bool {
        &&& channel::connected(self.watch_tx, self.watch_rx)
        &&& channel::seen(self.watch_rx) == 0
    }

    /// The end of the channel through which the watchers are told of changes.
    pub closed spec fn sender(&self) -> watch::Sender<()> {
        self.watch_tx
    }

    /// How many times the watchers were told of a change.
    pub open spec fn notices(&self) -> nat {
        channel::sent(self.sender())
    }

    /// `rx` is told of the changes of this status.
    pub open spec fn is_watched_by(&self, rx: watch::Receiver<()>) -> bool {
        channel::connected(self.sender(), rx)
    }

    /// `rx` is told of the changes of this status, and has not taken note of all of them.
    pub open spec fn has_news_for(&self, rx: watch::Receiver<()>) -> bool {
        self.is_watched_by(rx) && channel::seen(rx) < self.notices()
    }

    /// The status of a process that runs.
    pub fn new() -> (status: Self)
        ensures
            status.wf(),
            status@ == EntrypointStatus::Running,
            status.notices() == 0,
            channel::sent(status.sender()) == 0,
    {
        let (tx, rx) = channel::channel();
        Self { status: EntrypointStatus::Running, watch_tx: tx, watch_rx: rx }
    }

    /// The process ended.
    pub fn exited(&mut self, status: ExitStatus)
        requires
            old(self).wf(),
        ensures
            final(self).wf(),
            final(self)@ == EntrypointStatus::Exited(status),
            final(self).notices() == old(self).notices() + 1,
            channel::sent(final(self).sender()) == channel::sent(old(self).sender()) + 1,
            forall|rx: watch::Receiver<()>|
                channel::connected(old(self).sender(), rx) ==> #[trigger] channel::connected(
                    final(self).sender(),
                    rx,
                ),
            forall|rx: watch::Receiver<()>|
                old(self).is_watched_by(rx) ==> #[trigger] final(self).is_watched_by(rx),
            forall|rx: watch::Receiver<()>|
                old(self).is_watched_by(rx) && channel::seen(rx) <= old(self).notices()
                    ==> #[trigger] final(self).has_news_for(rx),
    {
        self.status = EntrypointStatus::Exited(status);
        let _ = channel::send(&mut self.watch_tx, &self.watch_rx);
    }

    /// The process could not be run.
    pub fn fatal(&mut self, err: String)
        requires
            old(self).wf(),
        ensures
            final(self).wf(),
            final(self)@ == EntrypointStatus::Fatal(err),
            final(self).notices() == old(self).notices() + 1,
            channel::sent(final(self).sender()) == channel::sent(old(self).sender()) + 1,
            forall|rx: watch::Receiver<()>|
                channel::connected(old(self).sender(), rx) ==> #[trigger] channel::connected(
                    final(self).sender(),
                    rx,
                ),
            forall|rx: watch::Receiver<()>|
                old(self).is_watched_by(rx) ==> #[trigger] final(self).is_watched_by(rx),
            forall|rx: watch::Receiver<()>|
                old(self).is_watched_by(rx) && channel::seen(rx) <= old(self).notices()
                    ==> #[trigger] final(self).has_news_for(rx),
    {
        self.status = EntrypointStatus::Fatal(err);
        let _ = channel::send(&mut self.watch_tx, &self.watch_rx);
    }

    /// Another watcher of the status. It has taken note of none of the changes so far, so it has
    /// news at once where there were any, and is told of every later one.
    pub fn watch(&self) -> (rx: watch::Receiver<()>)
        requires
            self.wf(),
        ensures
            self.is_watched_by(rx),
            channel::connected(self.sender(), rx),
            channel::seen(rx) == 0,
            self.has_news_for(rx) <==> self.notices() > 0,
            self.has_news_for(rx) <==> channel::sent(self.sender()) > 0,
    {
        channel::clone_receiver(&self.watch_rx)
    }

    /// The line that tells a client the status.
    pub fn as_json(&self) -> (text: String)
        ensures
            text@ == self@.json(),
            self@ is Running ==> text@ == "{ \"status\": \"running\" }\n"@,
            self@ matches EntrypointStatus::Exited(ExitStatus::Exited(code)) ==> text@
                == "{ \"status\": \"exited\", \"code\": "@ + decimal::signed_decimal(code as int)
                + " }\n"@,
            self@ matches EntrypointStatus::Exited(ExitStatus::Signaled(sig)) ==> text@
                == "{ \"status\": \"signaled\", \"signal\": \""@ + signal::signal_name(sig)
                + "\" }\n"@,
            self@ matches EntrypointStatus::Fatal(err) ==> text@
                == "{ \"status\": \"fatal\", \"error\": \""@ + err@ + "\" }\n"@,
            self@ matches EntrypointStatus::Fatal(err) ==> (!err@.contains('\n') ==> is_line(text@)),
            !(self@ is Fatal) ==> is_line(text@),
    {
        self.status.as_json()
    }
}

/// The exit code can be read back off the status line: different codes have different lines.
pub proof fn law_exit_code_can_be_told(a: i32, b: i32)
    requires
        EntrypointStatus::Exited(ExitStatus::Exited(a)).json() == EntrypointStatus::Exited(
            ExitStatus::Exited(b),
        ).json(),
    ensures
        a == b,
{
    lemma_middle_can_be_told(
        "{ \"status\": \"exited\", \"code\": "@,
        decimal::signed_decimal(a as int),
        decimal::signed_decimal(b as int),
        " }\n"@,
    );
    decimal::law_signed_decimal_can_be_read_back(a as int);
    decimal::law_signed_decimal_can_be_read_back(b as int);
}

/// The number that stands in the line of a process that exited is its exit code: between the fixed
/// texts stand a minus sign, where the code is negative, and the digits of the code's size, by place.
pub proof fn law_exit_code_stands_in_the_line(code: i32)
    ensures
        ({
            let line = EntrypointStatus::Exited(ExitStatus::Exited(code)).json();
            let d = line.subrange(30, line.len() - 3);
            &&& line.len() > 33
            &&& line == "{ \"status\": \"exited\", \"code\": "@ + d + " }\n"@
            &&& decimal::signed_value(d) == code
            &&& code >= 0 ==> {
                &&& code < pow(10, d.len())
                &&& d.len() > 1 ==> code >= pow(10, (d.len() - 1) as nat)
                &&& forall|i: int|
                    0 <= i < d.len() ==> #[trigger] d[i] as int == 48 + (code as int / pow(
                        10,
                        (d.len() - 1 - i) as nat,
                    )) % 10
            }
            &&& code < 0 ==> {
                &&& d.len() > 1
                &&& d[0] == '-'
                &&& -code < pow(10, (d.len() - 1) as nat)
                &&& d.len() > 2 ==> -code >= pow(10, (d.len() - 2) as nat)
                &&& forall|i: int|
                    1 <= i < d.len() ==> #[trigger] d[i] as int == 48 + (-(code as int) / pow(
                        10,
                        (d.len() - 1 - i) as nat,
                    )) % 10
            }
        }),
{
    reveal_strlit("{ \"status\": \"exited\", \"code\": ");
    reveal_strlit(" }\n");
    let line = EntrypointStatus::Exited(ExitStatus::Exited(code)).json();
    let d = line.subrange(30, line.len() - 3);
    decimal::law_signed_decimal_can_be_read_back(code as int);
    decimal::law_sign_of_a_number(code as int);
    assert(d =~= decimal::signed_decimal(code as int));
    if code < 0 {
        let digits = decimal::decimal((-(code as int)) as nat);
        decimal::law_digits_by_place((-(code as int)) as nat);
        assert forall|i: int| 1 <= i < d.len() implies #[trigger] d[i] as int == 48 + (-(
        code as int) / pow(10, (d.len() - 1 - i) as nat)) % 10 by {
            assert(d[i] == digits[i - 1]);
            assert(digits.len() - 1 - (i - 1) == d.len() - 1 - i);
        }
    } else {
        decimal::law_digits_by_place(code as nat);
    }
}

/// The line of a fatal status says so, and holds the whole reason as it is, from the first character
/// to the last, between the quotes.
pub proof fn law_reason_stands_in_the_line(err: String)
    ensures
        ({
            let line = EntrypointStatus::Fatal(err).json();
            &&& line.len() == 31 + err@.len() + 4
            &&& line.take(31) == "{ \"status\": \"fatal\", \"error\": \""@
            &&& line.subrange(31, line.len() - 4) == err@
            &&& line.skip(line.len() - 4) == seq!['"', ' ', '}', '\n']
        }),
{
    reveal_strlit("{ \"status\": \"fatal\", \"error\": \"");
    reveal_strlit("\" }\n");
    let line = EntrypointStatus::Fatal(err).json();
    assert(line.take(31) =~= "{ \"status\": \"fatal\", \"error\": \""@);
    assert(line.subrange(31, line.len() - 4) =~= err@);
    assert(line.skip(line.len() - 4) =~= seq!['"', ' ', '}', '\n']);
}

/// The line of a process that was ended by a signal says so, and holds the name of the signal between
/// the quotes, whatever the name.
pub proof fn law_signal_stands_in_the_line(sig: Signal, name: Seq<char>)
    ensures
        EntrypointStatus::Exited(ExitStatus::Signaled(sig)).json() == signaled_json(
            signal::signal_name(sig),
        ),
        ({
            let line = signaled_json(name);
            &&& line.len() == 35 + name.len() + 4
            &&& line.take(35) == "{ \"status\": \"signaled\", \"signal\": \""@
            &&& line.subrange(35, line.len() - 4) == name
            &&& line.skip(line.len() - 4) == seq!['"', ' ', '}', '\n']
        }),
{
    reveal_strlit("{ \"status\": \"signaled\", \"signal\": \"");
    reveal_strlit("\" }\n");
    let line = signaled_json(name);
    assert(line.take(35) =~= "{ \"status\": \"signaled\", \"signal\": \""@);
    assert(line.subrange(35, line.len() - 4) =~= name);
    assert(line.skip(line.len() - 4) =~= seq!['"', ' ', '}', '\n']);
}

/// Every line begins alike, and the first letter of the word that follows tells what became of the
/// process: whether it runs, exited, was ended by a signal or could not be run.
pub proof fn law_line_begins_with_the_kind(status: EntrypointStatus)
    ensures
        status.json().len() > 20,
        status.json().take(13) == "{ \"status\": \""@,
        status is Running ==> status.json() == "{ \"status\": \"running\" }\n"@,
        status.json()[13] == 'r' <==> status is Running,
        status.json()[13] == 'f' <==> status is Fatal,
        status.json()[13] == 'e' <==> (status matches EntrypointStatus::Exited(
            ExitStatus::Exited(_),
        )),
        status.json()[13] == 's' <==> (status matches EntrypointStatus::Exited(
            ExitStatus::Signaled(_),
        )),
{
    reveal_strlit("{ \"status\": \"");
    reveal_strlit("{ \"status\": \"running\" }\n");
    reveal_strlit("{ \"status\": \"exited\", \"code\": ");
    reveal_strlit("{ \"status\": \"signaled\", \"signal\": \"");
    reveal_strlit("{ \"status\": \"fatal\", \"error\": \"");
    let line = status.json();
    match status {
        EntrypointStatus::Running => {
            assert(line.take(13) =~= "{ \"status\": \""@);
        },
        EntrypointStatus::Exited(ExitStatus::Exited(code)) => {
            assert(line.take(13) =~= "{ \"status\": \""@);
            assert(line[13] == 'e');
        },
        EntrypointStatus::Exited(ExitStatus::Signaled(sig)) => {
            assert(line.take(13) =~= "{ \"status\": \""@);
            assert(line[13] == 's');
        },
        EntrypointStatus::Fatal(err) => {
            assert(line.take(13) =~= "{ \"status\": \""@);
            assert(line[13] == 'f');
        },
    }
}

/// The status can be told from its line: statuses of different kinds never have the same line, and
/// of two that have the same line the exit code, the signal's name or the reason is the same.
pub proof fn law_status_can_be_told_from_its_line(a: EntrypointStatus, b: EntrypointStatus)
    requires
        a.json() == b.json(),
    ensures
        a is Running <==> b is Running,
        a is Fatal <==> b is Fatal,
        a matches EntrypointStatus::Fatal(x) ==> (b matches EntrypointStatus::Fatal(y) && x@ == y@),
        a matches EntrypointStatus::Exited(ExitStatus::Exited(x)) ==> (
        b matches EntrypointStatus::Exited(ExitStatus::Exited(y)) && x == y),
        a matches EntrypointStatus::Exited(ExitStatus::Signaled(x)) ==> (
        b matches EntrypointStatus::Exited(ExitStatus::Signaled(y)) && signal::signal_name(x)
            == signal::signal_name(y)),
{
    law_line_begins_with_the_kind(a);
    law_line_begins_with_the_kind(b);
    match (a, b) {
        (EntrypointStatus::Exited(ExitStatus::Exited(x)), EntrypointStatus::Exited(
            ExitStatus::Exited(y),
        )) => {
            law_exit_code_can_be_told(x, y);
        },
        (EntrypointStatus::Exited(ExitStatus::Signaled(x)), EntrypointStatus::Exited(
            ExitStatus::Signaled(y),
        )) => {
            lemma_middle_can_be_told(
                "{ \"status\": \"signaled\", \"signal\": \""@,
                signal::signal_name(x),
                signal::signal_name(y),
                "\" }\n"@,
            );
        },
        (EntrypointStatus::Fatal(x), EntrypointStatus::Fatal(y)) => {
            lemma_middle_can_be_told(
                "{ \"status\": \"fatal\", \"error\": \""@,
                x@,
                y@,
                "\" }\n"@,
            );
        },
        _ => {},
    }
}

proof fn lemma_middle_can_be_told(before: Seq<char>, x: Seq<char>, y: Seq<char>, behind: Seq<char>)
    requires
        before + x + behind == before + y + behind,
    ensures
        x == y,
{
    let line = before + x + behind;
    assert(line.len() == before.len() + x.len() + behind.len());
    assert(line.len() == before.len() + y.len() + behind.len()) by {
        assert((before + y + behind).len() == before.len() + y.len() + behind.len());
    }
    assert(x =~= line.subrange(before.len() as int, (before.len() + x.len()) as int));
    assert(y =~= (before + y + behind).subrange(
        before.len() as int,
        (before.len() + y.len()) as int,
    ));
}

} // verus!
