//! Messages, errors and matching rules: the values that travel over a channel.
use vstd::prelude::*;

verus! {

/// The four kinds of bus message.
#[derive(Clone, Copy, Debug, PartialEq, Eq, Structural)]
pub enum MessageType {
    MethodCall,
    MethodReturn,
    Error,
    Signal,
}

/// A bus message. `serial` is assigned by the channel when the message is sent;
/// `reply_serial` names the request that a method return or an error answers.
#[derive(Clone, Debug)]
pub struct Message {
    pub msg_type: MessageType,
    pub serial: Option<u32>,
    pub reply_serial: Option<u32>,
    pub sender: String,
    pub destination: String,
    pub path: String,
    pub interface: String,
    pub member: String,
    pub error_name: String,
    pub args: Vec<i64>,
}

/// An error as the bus reports it: a dotted error name and a human-readable text.
#[derive(Clone, Debug)]
pub struct Error {
    pub name: String,
    pub message: String,
}

pub open spec fn failed_name() -> Seq<char> {
    "org.freedesktop.DBus.Error.Failed"@
}

pub open spec fn unknown_method_name() -> Seq<char> {
    "org.freedesktop.DBus.Error.UnknownMethod"@
}

pub open spec fn invalid_args_name() -> Seq<char> {
    "org.freedesktop.DBus.Error.InvalidArgs"@
}

impl Error {
    /// An error with the given name and text.
    pub fn new_custom(name: &str, message: &str) -> (r: Error)
        ensures
            r.name@ == name@,
            r.message@ == message@,
    {
        Error { name: name.to_owned(), message: message.to_owned() }
    }

    /// A generic failure with the given text.
    pub fn new_failed(message: &str) -> (r: Error)
        ensures
            r.name@ == failed_name(),
            r.message@ == message@,
    {
        Error::new_custom("org.freedesktop.DBus.Error.Failed", message)
    }
}

/// An empty string.
fn empty_string() -> (r: String)
    ensures
        r@ == Seq::<char>::empty(),
{
    String::new()
}

impl Message {
    /// A method call addressed to `destination`, `path`, `interface` and `member`, with no
    /// arguments and no serial yet.
    pub fn method_call(destination: &str, path: &str, interface: &str, member: &str) -> (r: Message)
        ensures
            r.msg_type == MessageType::MethodCall,
            r.serial is None,
            r.reply_serial is None,
            r.destination@ == destination@,
            r.path@ == path@,
            r.interface@ == interface@,
            r.member@ == member@,
            r.sender@.len() == 0,
            r.error_name@.len() == 0,
            r.args@.len() == 0,
    {
        Message {
            msg_type: MessageType::MethodCall,
            serial: None,
            reply_serial: None,
            sender: empty_string(),
            destination: destination.to_owned(),
            path: path.to_owned(),
            interface: interface.to_owned(),
            member: member.to_owned(),
            error_name: empty_string(),
            args: Vec::new(),
        }
    }

    /// A method return answering the request with serial `reply_serial`, carrying `args`.
    pub fn method_return(reply_serial: u32, args: Vec<i64>) -> (r: Message)
        ensures
            r.msg_type == MessageType::MethodReturn,
            r.serial is None,
            r.reply_serial == Some(reply_serial),
            r.args@ == args@,
    {
        Message {
            msg_type: MessageType::MethodReturn,
            serial: None,
            reply_serial: Some(reply_serial),
            sender: empty_string(),
            destination: empty_string(),
            path: empty_string(),
            interface: empty_string(),
            member: empty_string(),
            error_name: empty_string(),
            args,
        }
    }

    /// A signal emitted from `path` as `interface`.`member`, carrying `args`.
    pub fn signal(path: &str, interface: &str, member: &str, args: Vec<i64>) -> (r: Message)
        ensures
            r.msg_type == MessageType::Signal,
            r.serial is None,
            r.reply_serial is None,
            r.path@ == path@,
            r.interface@ == interface@,
            r.member@ == member@,
            r.args@ == args@,
    {
        Message {
            msg_type: MessageType::Signal,
            serial: None,
            reply_serial: None,
            sender: empty_string(),
            destination: empty_string(),
            path: path.to_owned(),
            interface: interface.to_owned(),
            member: member.to_owned(),
            error_name: empty_string(),
            args,
        }
    }
}

/// Whether a message is owed a protocol-level answer when nothing else handles it.
pub open spec fn needs_default_reply(m: Message) -> bool {
    m.msg_type == MessageType::MethodCall && m.serial is Some
}

/// The answer synthesised for a method call that no handler took: an "unknown method" error
/// sent back to the caller, answering the call's serial. Other messages get none.
pub fn default_reply(m: &Message) -> (r: Option<Message>)
    ensures
        r is Some <==> needs_default_reply(*m),
        r matches Some(e) ==> {
            &&& e.msg_type == MessageType::Error
            &&& e.serial is None
            &&& e.reply_serial == m.serial
            &&& e.destination@ == m.sender@
            &&& e.error_name@ == unknown_method_name()
        },
{
    match (m.msg_type, m.serial) {
        (MessageType::MethodCall, Some(serial)) => Some(
            Message {
                msg_type: MessageType::Error,
                serial: None,
                reply_serial: Some(serial),
                sender: empty_string(),
                destination: m.sender.clone(),
                path: empty_string(),
                interface: empty_string(),
                member: empty_string(),
                error_name: "org.freedesktop.DBus.Error.UnknownMethod".to_owned(),
                args: Vec::new(),
            },
        ),
        _ => None,
    }
}

/// A rule that selects inbound messages: each field that is set must equal the message's.
#[derive(Clone, Debug)]
pub struct MatchRule {
    pub msg_type: Option<MessageType>,
    pub sender: Option<String>,
    pub path: Option<String>,
    pub interface: Option<String>,
    pub member: Option<String>,
}

pub open spec fn field_matches(f: Option<String>, v: String) -> bool {
    match f {
        Some(s) => s@ == v@,
        None => true,
    }
}

fn field_matches_exec(f: &Option<String>, v: &String) -> (r: bool)
    ensures
        r == field_matches(*f, *v),
{
    match f {
        Some(s) => s.eq(v),
        None => true,
    }
}

impl MatchRule {
    /// The rule that every message meets.
    pub fn new() -> (r: MatchRule)
        ensures
            r.msg_type is None,
            r.sender is None,
            r.path is None,
            r.interface is None,
            r.member is None,
    {
        MatchRule { msg_type: None, sender: None, path: None, interface: None, member: None }
    }

    /// The rule that selects signals with the given interface and member.
    pub fn new_signal(interface: &str, member: &str) -> (r: MatchRule)
        ensures
            r.msg_type == Some(MessageType::Signal),
            r.sender is None,
            r.path is None,
            r.interface matches Some(i) && i@ == interface@,
            r.member matches Some(m) && m@ == member@,
    {
        MatchRule {
            msg_type: Some(MessageType::Signal),
            sender: None,
            path: None,
            interface: Some(interface.to_owned()),
            member: Some(member.to_owned()),
        }
    }

    pub open spec fn spec_matches(&self, m: Message) -> bool {
        &&& (self.msg_type matches Some(t) ==> t == m.msg_type)
        &&& field_matches(self.sender, m.sender)
        &&& field_matches(self.path, m.path)
        &&& field_matches(self.interface, m.interface)
        &&& field_matches(self.member, m.member)
    }

    /// Whether `m` meets this rule.
    pub fn matches(&self, m: &Message) -> (r: bool)
        ensures
            r == self.spec_matches(*m),
    {
        let type_ok = match self.msg_type {
            Some(t) => t == m.msg_type,
            None => true,
        };
        type_ok && field_matches_exec(&self.sender, &m.sender) && field_matches_exec(
            &self.path,
            &m.path,
        ) && field_matches_exec(&self.interface, &m.interface) && field_matches_exec(
            &self.member,
            &m.member,
        )
    }
}

/// A type that the arguments of a reply can be read into.
pub trait ReadAll: Sized {
    /// The value read from `args`, or `None` where they do not have this type's shape.
    spec fn decode(args: Seq<i64>) -> Option<Self>;

    fn read_all(args: &Vec<i64>) -> (r: Option<Self>)
        ensures
            r == Self::decode(args@),
    ;
}

/// Exactly one argument.
impl ReadAll for i64 {
    open spec fn decode(args: Seq<i64>) -> Option<i64> {
        if args.len() == 1 {
            Some(args[0])
        } else {
            None
        }
    }

    fn read_all(args: &Vec<i64>) -> (r: Option<i64>) {
        if args.len() == 1 {
            Some(args[0])
        } else {
            None
        }
    }
}

/// Exactly two arguments.
impl ReadAll for (i64, i64) {
    open spec fn decode(args: Seq<i64>) -> Option<(i64, i64)> {
        if args.len() == 2 {
            Some((args[0], args[1]))
        } else {
            None
        }
    }

    fn read_all(args: &Vec<i64>) -> (r: Option<(i64, i64)>) {
        if args.len() == 2 {
            Some((args[0], args[1]))
        } else {
            None
        }
    }
}

/// No arguments.
impl ReadAll for () {
    open spec fn decode(args: Seq<i64>) -> Option<()> {
        if args.len() == 0 {
            Some(())
        } else {
            None
        }
    }

    fn read_all(args: &Vec<i64>) -> (r: Option<()>) {
        if args.len() == 0 {
            Some(())
        } else {
            None
        }
    }
}

/// What reading a reply gives: the error name of an error reply, the decoded arguments
/// of any other, or an "invalid arguments" error where they do not decode.
pub open spec fn reply_outcome<R: ReadAll>(m: Message) -> Result<R, Seq<char>> {
    if m.msg_type == MessageType::Error {
        Err(m.error_name@)
    } else {
        match R::decode(m.args@) {
            Some(v) => Ok(v),
            None => Err(invalid_args_name()),
        }
    }
}

/// Whether a result agrees with an outcome: the same value, or an error of the same name.
pub open spec fn agrees<R>(r: Result<R, Error>, o: Result<R, Seq<char>>) -> bool {
    match r {
        Ok(v) => o == Ok::<R, Seq<char>>(v),
        Err(e) => o == Err::<R, Seq<char>>(e.name@),
    }
}

/// Reads a reply message into `R`.
pub fn read_reply<R: ReadAll>(m: Message) -> (r: Result<R, Error>)
    ensures
        agrees(r, reply_outcome::<R>(m)),
{
    if m.msg_type == MessageType::Error {
        Err(Error { name: m.error_name, message: empty_string() })
    } else {
        match R::read_all(&m.args) {
            Some(v) => Ok(v),
            None => Err(
                Error::new_custom("org.freedesktop.DBus.Error.InvalidArgs", "Invalid arguments"),
            ),
        }
    }
}

} // verus!
