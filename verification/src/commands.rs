//! The command interpreter: parses one line of text into a typed command,
//! dispatches it against the ledger, and renders every outcome — success
//! or failure — as a single line of text.

use vstd::prelude::*;
use crate::storage::{slookup, render_accounts};
use crate::text::{
    tokens_of, all_digits, digits_val, dec_str, parse_u64, tokenize, str_eq, u64_to_string,
};
use crate::{
    Blockchain, Transaction, LedgerError, transfer_ok, apply_create, apply_transfer,
};

verus! {

/// The abstract form of a parsed command line.
pub ghost enum CommandView {
    CreateAccount { id: Seq<char>, balance: u64 },
    Transfer { from: Seq<char>, to: Seq<char>, amount: u64 },
    Balance { id: Seq<char> },
    ListAccounts,
    /// `create-account` whose balance token is not a number.
    BadBalance,
    /// `transfer` whose amount token is not a number.
    BadAmount,
    /// Any other shape of line.
    Unknown,
}

/// A parsed command line.
pub enum ParsedCommand {
    CreateAccount { id: String, balance: u64 },
    Transfer { from: String, to: String, amount: u64 },
    Balance { id: String },
    ListAccounts,
    BadBalance,
    BadAmount,
    Unknown,
}

impl View for ParsedCommand {
    type V = CommandView;

    open spec fn view(&self) -> CommandView {
        match self {
            ParsedCommand::CreateAccount { id, balance } => CommandView::CreateAccount {
                id: id@,
                balance: *balance,
            },
            ParsedCommand::Transfer { from, to, amount } => CommandView::Transfer {
                from: from@,
                to: to@,
                amount: *amount,
            },
            ParsedCommand::Balance { id } => CommandView::Balance { id: id@ },
            ParsedCommand::ListAccounts => CommandView::ListAccounts,
            ParsedCommand::BadBalance => CommandView::BadBalance,
            ParsedCommand::BadAmount => CommandView::BadAmount,
            ParsedCommand::Unknown => CommandView::Unknown,
        }
    }
}

/// Whether a token denotes a non-negative integer that fits in a `u64`.
pub open spec fn num_ok(t: Seq<char>) -> bool {
    t.len() > 0 && all_digits(t) && digits_val(t) <= u64::MAX
}

/// What one line of text means, by its whitespace-separated tokens.
pub open spec fn parse_spec(s: Seq<char>) -> CommandView {
    let toks = tokens_of(s);
    if toks.len() == 3 && toks[0] == "create-account"@ {
        if num_ok(toks[2]) {
            CommandView::CreateAccount { id: toks[1], balance: digits_val(toks[2]) as u64 }
        } else {
            CommandView::BadBalance
        }
    } else if toks.len() == 4 && toks[0] == "transfer"@ {
        if num_ok(toks[3]) {
            CommandView::Transfer {
                from: toks[1],
                to: toks[2],
                amount: digits_val(toks[3]) as u64,
            }
        } else {
            CommandView::BadAmount
        }
    } else if toks.len() == 2 && toks[0] == "balance"@ {
        CommandView::Balance { id: toks[1] }
    } else if toks.len() == 1 && toks[0] == "list-accounts"@ {
        CommandView::ListAccounts
    } else {
        CommandView::Unknown
    }
}

/// Parses one line of text into a command.
pub fn parse_command(s: &str) -> (c: ParsedCommand)
    ensures
        c@ == parse_spec(s@),
{
    let toks = tokenize(s);
    proof {
        assert(forall|i: int| 0 <= i < toks@.len() ==> (#[trigger] toks@[i])@ == tokens_of(s@)[i]);
    }
    if toks.len() == 3 && str_eq(toks[0].as_str(), "create-account") {
        match parse_u64(toks[2].as_str()) {
            Some(balance) => ParsedCommand::CreateAccount { id: toks[1].clone(), balance },
            None => ParsedCommand::BadBalance,
        }
    } else if toks.len() == 4 && str_eq(toks[0].as_str(), "transfer") {
        match parse_u64(toks[3].as_str()) {
            Some(amount) => ParsedCommand::Transfer {
                from: toks[1].clone(),
                to: toks[2].clone(),
                amount,
            },
            None => ParsedCommand::BadAmount,
        }
    } else if toks.len() == 2 && str_eq(toks[0].as_str(), "balance") {
        ParsedCommand::Balance { id: toks[1].clone() }
    } else if toks.len() == 1 && str_eq(toks[0].as_str(), "list-accounts") {
        ParsedCommand::ListAccounts
    } else {
        ParsedCommand::Unknown
    }
}

/// The success line for an account creation.
pub open spec fn msg_created(id: Seq<char>, balance: u64) -> Seq<char> {
    "Account '"@ + id + "' created with balance "@ + dec_str(balance as nat)
}

/// The success line for a transfer.
pub open spec fn msg_transferred(amount: u64, from: Seq<char>, to: Seq<char>) -> Seq<char> {
    "Transferred "@ + dec_str(amount as nat) + " from '"@ + from + "' to '"@ + to + "'"@
}

/// The success line for a balance query.
pub open spec fn msg_balance(id: Seq<char>, v: u64) -> Seq<char> {
    "Balance of '"@ + id + "': "@ + dec_str(v as nat)
}

/// A `Result` of strings, by content.
pub open spec fn res_view(r: Result<String, String>) -> Result<Seq<char>, Seq<char>> {
    match r {
        Ok(m) => Ok(m@),
        Err(e) => Err(e@),
    }
}

/// What processing one command line does to the ledger and reports back:
/// the full contract of [`Blockchain::process_command`].
pub open spec fn command_outcome(
    pre: Blockchain,
    post: Blockchain,
    s: Seq<char>,
    r: Result<Seq<char>, Seq<char>>,
) -> bool {
    match parse_spec(s) {
        CommandView::CreateAccount { id, balance } => {
            if !pre.is_active {
                post == pre && r == Err::<Seq<char>, Seq<char>>(
                    "Blockchain node is not running"@,
                )
            } else if slookup(pre.effective(), id) is Some {
                post == pre && r == Err::<Seq<char>, Seq<char>>("Account already exists"@)
            } else {
                &&& r == Ok::<Seq<char>, Seq<char>>(msg_created(id, balance))
                &&& post.effective() == apply_create(pre.effective(), id, balance)
                &&& post.storage == pre.storage
                &&& post.chain == pre.chain
                &&& post.is_active == pre.is_active
                &&& post.block_time == pre.block_time
                &&& post.pending_transactions@.len() == pre.pending_transactions@.len() + 1
                &&& post.pending_transactions@.drop_last() == pre.pending_transactions@
                &&& (post.pending_transactions@.last() matches Transaction::CreateAccount {
                    id: nid,
                    balance: nb,
                } && nid@ == id && nb == balance)
            }
        },
        CommandView::Transfer { from, to, amount } => {
            if slookup(pre.effective(), from) is None {
                post == pre && r == Err::<Seq<char>, Seq<char>>("From account not found"@)
            } else if amount > slookup(pre.effective(), from).unwrap() {
                post == pre && r == Err::<Seq<char>, Seq<char>>("Insufficient funds"@)
            } else if !transfer_ok(pre.effective(), from, to, amount) {
                post == pre && r == Err::<Seq<char>, Seq<char>>("Balance overflow"@)
            } else {
                &&& r == Ok::<Seq<char>, Seq<char>>(msg_transferred(amount, from, to))
                &&& post.effective() == apply_transfer(pre.effective(), from, to, amount)
                &&& post.storage == pre.storage
                &&& post.chain == pre.chain
                &&& post.is_active == pre.is_active
                &&& post.block_time == pre.block_time
                &&& post.pending_transactions@.len() == pre.pending_transactions@.len() + 1
                &&& post.pending_transactions@.drop_last() == pre.pending_transactions@
                &&& (post.pending_transactions@.last() matches Transaction::Transfer {
                    from: f,
                    to: t,
                    amount: a,
                } && f@ == from && t@ == to && a == amount)
            }
        },
        CommandView::Balance { id } => {
            post == pre && r == (match slookup(pre.storage@, id) {
                Some(v) => Ok::<Seq<char>, Seq<char>>(msg_balance(id, v)),
                None => Err::<Seq<char>, Seq<char>>("Account not found"@),
            })
        },
        CommandView::ListAccounts => {
            post == pre && r == Ok::<Seq<char>, Seq<char>>(
                if pre.storage@.len() == 0 {
                    "No accounts found."@
                } else {
                    render_accounts(pre.storage@)
                },
            )
        },
        CommandView::BadBalance => post == pre && r == Err::<Seq<char>, Seq<char>>(
            "Invalid balance"@,
        ),
        CommandView::BadAmount => post == pre && r == Err::<Seq<char>, Seq<char>>(
            "Invalid amount"@,
        ),
        CommandView::Unknown => post == pre && r == Err::<Seq<char>, Seq<char>>(
            "Invalid command"@,
        ),
    }
}

impl Blockchain {
    /// Interprets one line of text as a command, runs it, and reports the
    /// outcome as exactly one line: the sole observable surface of the
    /// interpreter. Failures are returned, never raised: the caller can
    /// keep feeding commands after any of them.
    pub fn process_command(&mut self, command: &str) -> (r: Result<String, String>)
        ensures
            command_outcome(*old(self), *final(self), command@, res_view(r)),
    {
        match parse_command(command) {
            ParsedCommand::CreateAccount { id, balance } => {
                match self.create_account(id.as_str(), balance) {
                    Ok(_) => {
                        let mut m = String::from_str("Account '");
                        m.append(id.as_str());
                        m.append("' created with balance ");
                        let b = u64_to_string(balance);
                        m.append(b.as_str());
                        proof {
                            assert(m@ =~= msg_created(id@, balance));
                        }
                        Ok(m)
                    },
                    Err(LedgerError::NotRunning) => {
                        Err(String::from_str("Blockchain node is not running"))
                    },
                    Err(_) => Err(String::from_str("Account already exists")),
                }
            },
            ParsedCommand::Transfer { from, to, amount } => {
                match self.add_transaction(from.clone(), to.clone(), amount) {
                    Ok(_) => {
                        let mut m = String::from_str("Transferred ");
                        let a = u64_to_string(amount);
                        m.append(a.as_str());
                        m.append(" from '");
                        m.append(from.as_str());
                        m.append("' to '");
                        m.append(to.as_str());
                        m.append("'");
                        proof {
                            assert(m@ =~= msg_transferred(amount, from@, to@));
                        }
                        Ok(m)
                    },
                    Err(LedgerError::NotFound) => Err(String::from_str("From account not found")),
                    Err(LedgerError::InsufficientFunds) => {
                        Err(String::from_str("Insufficient funds"))
                    },
                    Err(_) => Err(String::from_str("Balance overflow")),
                }
            },
            ParsedCommand::Balance { id } => {
                match self.balance(id.as_str()) {
                    Ok(v) => {
                        let mut m = String::from_str("Balance of '");
                        m.append(id.as_str());
                        m.append("': ");
                        let b = u64_to_string(v);
                        m.append(b.as_str());
                        proof {
                            assert(m@ =~= msg_balance(id@, v));
                        }
                        Ok(m)
                    },
                    Err(_) => Err(String::from_str("Account not found")),
                }
            },
            ParsedCommand::ListAccounts => Ok(self.list_accounts()),
            ParsedCommand::BadBalance => Err(String::from_str("Invalid balance")),
            ParsedCommand::BadAmount => Err(String::from_str("Invalid amount")),
            ParsedCommand::Unknown => Err(String::from_str("Invalid command")),
        }
    }
}

/// One output line: the success message, or the error behind a marker.
pub open spec fn render_out(r: Result<Seq<char>, Seq<char>>) -> Seq<char> {
    match r {
        Ok(m) => m,
        Err(e) => "Error: "@ + e,
    }
}

/// One command line was processed and reported on one output line.
pub open spec fn line_out(
    pre: Blockchain,
    post: Blockchain,
    line: Seq<char>,
    out: Seq<char>,
) -> bool {
    exists|r: Result<Seq<char>, Seq<char>>|
        #[trigger] command_outcome(pre, post, line, r) && out == render_out(r)
}

/// The command lines were processed in order, from `pre` to `post`,
/// reporting one output line each.
pub open spec fn runs(
    pre: Blockchain,
    lines: Seq<Seq<char>>,
    post: Blockchain,
    outs: Seq<Seq<char>>,
) -> bool
    decreases lines.len(),
{
    if lines.len() == 0 {
        post == pre && outs.len() == 0
    } else {
        &&& outs.len() == lines.len()
        &&& exists|mid: Blockchain|
            #[trigger] line_out(pre, mid, lines[0], outs[0]) && runs(
                mid,
                lines.drop_first(),
                post,
                outs.drop_first(),
            )
    }
}

proof fn lemma_runs_push(
    pre: Blockchain,
    lines: Seq<Seq<char>>,
    mid: Blockchain,
    outs: Seq<Seq<char>>,
    line: Seq<char>,
    out: Seq<char>,
    post: Blockchain,
)
    requires
        runs(pre, lines, mid, outs),
        line_out(mid, post, line, out),
    ensures
        runs(pre, lines.push(line), post, outs.push(out)),
    decreases lines.len(),
{
    if lines.len() == 0 {
        assert(mid == pre);
        assert(lines.push(line)[0] == line);
        assert(outs.push(out)[0] == out);
        assert(lines.push(line).drop_first() =~= Seq::<Seq<char>>::empty());
        assert(outs.push(out).drop_first() =~= Seq::<Seq<char>>::empty());
        assert(line_out(pre, post, line, out) && runs(
            post,
            lines.push(line).drop_first(),
            post,
            outs.push(out).drop_first(),
        ));
    } else {
        let m1 = choose|m1: Blockchain|
            #[trigger] line_out(pre, m1, lines[0], outs[0]) && runs(
                m1,
                lines.drop_first(),
                mid,
                outs.drop_first(),
            );
        lemma_runs_push(m1, lines.drop_first(), mid, outs.drop_first(), line, out, post);
        assert(lines.push(line).drop_first() =~= lines.drop_first().push(line));
        assert(outs.push(out).drop_first() =~= outs.drop_first().push(out));
        assert(lines.push(line)[0] == lines[0]);
        assert(outs.push(out)[0] == outs[0]);
        assert(line_out(pre, m1, lines.push(line)[0], outs.push(out)[0]) && runs(
            m1,
            lines.push(line).drop_first(),
            post,
            outs.push(out).drop_first(),
        ));
    }
}

impl Blockchain {
    /// Feeds the ledger a batch of command lines, as a scripted session
    /// would, and collects the one-line report of each.
    pub fn start_with_mocks(&mut self, lines: &Vec<String>) -> (outs: Vec<String>)
        ensures
            runs(*old(self), lines.deep_view(), *final(self), outs.deep_view()),
            outs@.len() == lines@.len(),
    {
        let n = lines.len();
        let mut outs: Vec<String> = Vec::new();
        let mut i: usize = 0;
        proof {
            assert(lines.deep_view().take(0) =~= Seq::<Seq<char>>::empty());
            assert(outs.deep_view() =~= Seq::<Seq<char>>::empty());
        }
        while i < n
            invariant
                0 <= i <= n,
                n == lines@.len(),
                outs@.len() == i,
                runs(*old(self), lines.deep_view().take(i as int), *self, outs.deep_view()),
            decreases n - i,
        {
            let ghost pre = *self;
            let ghost prev_outs = outs.deep_view();
            let line_result = self.process_command(lines[i].as_str());
            let ghost rv = res_view(line_result);
            let out = match line_result {
                Ok(m) => m,
                Err(e) => {
                    let mut s = String::from_str("Error: ");
                    s.append(e.as_str());
                    s
                },
            };
            let ghost o = out@;
            outs.push(out);
            proof {
                assert(lines.deep_view()[i as int] == lines@[i as int]@);
                assert(o == render_out(rv));
                assert(command_outcome(pre, *self, lines.deep_view()[i as int], rv));
                assert(line_out(pre, *self, lines.deep_view()[i as int], o));
                lemma_runs_push(
                    *old(self),
                    lines.deep_view().take(i as int),
                    pre,
                    prev_outs,
                    lines.deep_view()[i as int],
                    o,
                    *self,
                );
                assert(lines.deep_view().take(i + 1) =~= lines.deep_view().take(i as int).push(
                    lines.deep_view()[i as int],
                ));
                assert(outs.deep_view() =~= prev_outs.push(o));
            }
            i = i + 1;
        }
        proof {
            assert(lines.deep_view().take(n as int) =~= lines.deep_view());
        }
        outs
    }
}

} // verus!
