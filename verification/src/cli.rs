//! The decision logic of the surrounding programs: command-line argument
//! handling for the client, the framed message it sends, and the framed
//! command that the servers read from a connection.  The programs
//! themselves do the I/O and hand plain values in and out.

use vstd::prelude::*;

use crate::arbitrary::{gen_inv, make_n_arbitrary};
use crate::errors::{err_matches, JsonError};
use crate::grammar::{skip_ws, spec_parse, JErr, PRes};
use crate::serializing::spec_serialize;
use crate::stream::{stream_rest, JsonStream};
use crate::unicode::{str_eq, string_from_utf8};
use crate::{Json, JsonModel};
use vstd::string::StringExecFns;
use vstd::utf8::{decode_utf8, valid_utf8};

verus! {

/// The client's command line options: whether to wait for
/// acknowledgements, and the port to connect to.
pub struct Config {
    /// Expect an acknowledgement from the server after each message.
    pub acks: bool,
    /// The port to connect to.
    pub port: String,
}

impl Default for Config {
    /// No acknowledgements, port 6049.
    fn default() -> (c: Config)
        ensures
            !c.acks,
            c.port@ == "6049"@,
    {
        Config { acks: false, port: String::from_str("6049") }
    }
}

/// The usage text of the client, for the given program name.
pub fn usage(name: &str) -> (r: String)
    ensures
        r@ == "Usage "@ + name@ + usage_options(),
{
    let mut r = String::from_str("Usage ");
    r.append(name);
    r.append(
        ": [OPTION]\n            -a:\n            --acks: expect acks from server,\n            -p <port>:\n            --port <port>: connect to port 'port'.\n            ",
    );
    r
}

/// The option summary that follows the program name in the usage text.
pub open spec fn usage_options() -> Seq<char> {
    ": [OPTION]\n            -a:\n            --acks: expect acks from server,\n            -p <port>:\n            --port <port>: connect to port 'port'.\n            "@
}

/// What a run of the argument scanner yields: the acknowledgement flag
/// and port after reading the arguments, or the message of the first
/// unknown option.  `expecting` says that the previous argument announced
/// a port number.
pub open spec fn spec_check_args(
    args: Seq<Seq<char>>,
    acks: bool,
    port: Seq<char>,
    expecting: bool,
) -> Result<(bool, Seq<char>), Seq<char>>
    decreases args.len(),
{
    if args.len() == 0 {
        Ok((acks, port))
    } else {
        let s = args[0];
        if expecting {
            spec_check_args(args.skip(1), acks, s, false)
        } else if s == "-a"@ || s == "--a"@ || s == "-ack"@ || s == "--ack"@ {
            spec_check_args(args.skip(1), true, port, false)
        } else if s == "port"@ || s == "-port"@ || s == "--port"@ || s == "--p"@ || s == "-p"@ {
            spec_check_args(args.skip(1), acks, port, true)
        } else {
            Err("unknown option '"@ + s + "'"@)
        }
    }
}

/// The views of a slice of argument strings.
pub open spec fn strs_view(args: Seq<String>) -> Seq<Seq<char>> {
    Seq::new(args.len(), |i: int| args[i]@)
}

/// Reads the command line arguments into the configuration.  An unknown
/// option is rejected with a message naming it; the scan stops there and
/// the configuration may be partially updated.
pub fn check_args(args: &[String], cfg: &mut Config) -> (r: Result<(), String>)
    ensures
        match r {
            Ok(()) => spec_check_args(strs_view(args@), old(cfg).acks, old(cfg).port@, false)
                matches Ok(c) && final(cfg).acks == c.0 && final(cfg).port@ == c.1,
            Err(m) => spec_check_args(strs_view(args@), old(cfg).acks, old(cfg).port@, false)
                matches Err(msg) && m@ == msg,
        },
{
    let n = args.len();
    let mut i: usize = 0;
    let mut expecting = false;
    proof {
        assert(strs_view(args@).skip(0) =~= strs_view(args@));
    }
    while i < n
        invariant
            n == args@.len(),
            0 <= i <= n,
            spec_check_args(strs_view(args@), old(cfg).acks, old(cfg).port@, false)
                == spec_check_args(
                strs_view(args@).skip(i as int),
                cfg.acks,
                cfg.port@,
                expecting,
            ),
        decreases n - i,
    {
        let s = &args[i];
        proof {
            assert(strs_view(args@).skip(i as int)[0] == args@[i as int]@);
            assert(strs_view(args@).skip(i as int).skip(1) =~= strs_view(args@).skip(i + 1));
        }
        if expecting {
            cfg.port = s.clone();
            expecting = false;
        } else if str_eq(s.as_str(), "-a") || str_eq(s.as_str(), "--a") || str_eq(
            s.as_str(),
            "-ack",
        ) || str_eq(s.as_str(), "--ack") {
            cfg.acks = true;
        } else if str_eq(s.as_str(), "port") || str_eq(s.as_str(), "-port") || str_eq(
            s.as_str(),
            "--port",
        ) || str_eq(s.as_str(), "--p") || str_eq(s.as_str(), "-p") {
            expecting = true;
        } else {
            let mut m = String::from_str("unknown option '");
            m.append(s.as_str());
            m.append("'");
            return Err(m);
        }
        i += 1;
    }
    proof {
        assert(strs_view(args@).skip(n as int) =~= Seq::<Seq<char>>::empty());
    }
    Ok(())
}

/// A command read from a connection: a name, then the Json payload.
pub struct Command {
    /// The command's name, the first input line.
    pub name: String,
    /// The Json value that follows the name.
    pub payload: Json,
}

impl Default for Command {
    /// The `ADD` command with a `null` payload.
    fn default() -> (c: Command)
        ensures
            c.name@ == "ADD"@,
            c.payload@ == JsonModel::Null,
    {
        Command { name: String::from_str("ADD"), payload: Json::Null }
    }
}

/// The run of bytes before the first line break.
pub open spec fn nl_run(s: Seq<u8>) -> nat
    decreases s.len(),
{
    if s.len() > 0 && s[0] != 10 {
        1 + nl_run(s.skip(1))
    } else {
        0
    }
}

/// The outcome of reading a framed command — a name line, a blank line,
/// a Json value — from the given bytes.
pub open spec fn spec_command(s0: Seq<u8>) -> PRes<(Seq<char>, JsonModel)> {
    let s1 = skip_ws(s0);
    let k = nl_run(s1);
    if k >= s1.len() {
        PRes::Fail(JErr::Eof)
    } else {
        let name = s1.take(k as int);
        let after = s1.skip(k as int + 1);
        if after.len() == 0 {
            PRes::Fail(JErr::Eof)
        } else if after[0] != 10 {
            PRes::Fail(JErr::Expected)
        } else if !valid_utf8(name) {
            PRes::Fail(JErr::StrUtf8)
        } else {
            match spec_parse(after.skip(1)) {
                PRes::Done(v, rest) => PRes::Done((decode_utf8(name), v), rest),
                PRes::Fail(k) => PRes::Fail(k),
            }
        }
    }
}

/// The maximal line prefix holds no line break and ends at one, when it
/// ends within the input.
proof fn lemma_nl_run(s: Seq<u8>)
    ensures
        nl_run(s) <= s.len(),
        forall|i: int| 0 <= i < nl_run(s) ==> s[i] != 10,
        nl_run(s) < s.len() ==> s[nl_run(s) as int] == 10,
    decreases s.len(),
{
    if s.len() > 0 && s[0] != 10 {
        lemma_nl_run(s.skip(1));
        assert forall|i: int| 0 <= i < nl_run(s) implies s[i] != 10 by {
            if i >= 1 {
                assert(s.skip(1)[i - 1] == s[i]);
            }
        }
        if nl_run(s) < s.len() {
            assert(s.skip(1)[nl_run(s) - 1] == s[nl_run(s) as int]);
        }
    }
}

/// Reads a framed command from the stream: the command's name up to a
/// line break, one more line break, then the Json payload.  A name that
/// is not valid text is a hard failure.
pub fn parse_command(s: &mut JsonStream) -> (r: Result<Command, JsonError>)
    ensures
        match r {
            Ok(c) => spec_command(stream_rest(*old(s))) matches PRes::Done(nv, rest) && c.name@
                == nv.0 && c.payload@ == nv.1 && stream_rest(*final(s)) == rest,
            Err(e) => spec_command(stream_rest(*old(s))) matches PRes::Fail(k) && err_matches(
                e,
                k,
            ),
        },
{
    let ghost s0 = stream_rest(*s);
    s.skip_whitespace();
    proof {
        crate::grammar::lemma_skip_ws(s0);
        lemma_nl_run(skip_ws(s0));
    }
    let ghost s1 = stream_rest(*s);
    let mut v: Vec<u8> = Vec::new();
    loop
        invariant_except_break
            s1 == skip_ws(stream_rest(*old(s))),
            stream_rest(*s) == s1.skip(v@.len() as int),
            v@.len() + nl_run(stream_rest(*s)) == nl_run(s1),
            v@ == s1.take(v@.len() as int),
        ensures
            s1 == skip_ws(stream_rest(*old(s))),
            nl_run(s1) < s1.len(),
            v@ == s1.take(nl_run(s1) as int),
            stream_rest(*s) == s1.skip(nl_run(s1) as int + 1),
        decreases stream_rest(*s).len(),
    {
        proof {
            assert(s1.skip(0) =~= s1);
            assert(s1.take(0) =~= Seq::<u8>::empty());
        }
        let ghost rest_at = stream_rest(*s);
        let b = match s.any_byte() {
            Ok(b) => b,
            Err(e) => {
                proof {
                    lemma_nl_run(s1);
                }
                return Err(e);
            },
        };
        if b == 10 {
            proof {
                lemma_nl_run(s1);
                assert(nl_run(rest_at) == 0);
                assert(rest_at.skip(1) =~= s1.skip(v@.len() as int + 1));
            }
            break;
        }
        let ghost old_v = v@;
        v.push(b);
        proof {
            lemma_nl_run(s1);
            assert(rest_at[0] == s1[old_v.len() as int]);
            assert(v@ =~= s1.take(v@.len() as int));
            assert(rest_at.skip(1) =~= s1.skip(v@.len() as int));
        }
    }
    match s.byte(10) {
        Ok(()) => (),
        Err(e) => {
            return Err(e);
        },
    }
    let name = match string_from_utf8(v) {
        Some(x) => x,
        None => {
            let p = s.position();
            return Err(JsonError::Failed(String::from_str("unicode error"), p));
        },
    };
    match crate::parsing::parse(s) {
        Ok(j) => Ok(Command { name, payload: j }),
        Err(e) => Err(e),
    }
}

/// The message the client sends: the `Add` command frame followed by one
/// serialised random value.  Every value it can frame is well formed in
/// the sense of [`gen_inv`].
pub fn build_message() -> (v: Vec<u8>)
    ensures
        exists|jm: JsonModel|
            gen_inv(jm) && v@ == seq![65u8, 100, 100, 10, 10] + spec_serialize(jm),
{
    let j = make_n_arbitrary(10);
    let mut v: Vec<u8> = Vec::new();
    v.push(65);
    v.push(100);
    v.push(100);
    v.push(10);
    v.push(10);
    proof {
        assert(v@ =~= seq![65u8, 100, 100, 10, 10]);
    }
    let _ = j.serialize(&mut v);
    proof {
        let jm = j@;
        assert(gen_inv(jm) && v@ == seq![65u8, 100, 100, 10, 10] + spec_serialize(jm));
    }
    v
}

} // verus!
