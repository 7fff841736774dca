//! The catalog client's side of the core: connection parameters, the error
//! taxonomy of the listing and drop operations, and the planning of the
//! drop-database operation (backend termination first, then a drop statement
//! with the identifier escaped). Opening connections and executing the
//! statements is network I/O and stays with the surrounding application.

use vstd::prelude::*;
use crate::text::push_char;

verus! {

/// Failure of a catalog operation: opening the connection, or executing a
/// statement on it.
#[derive(Debug)]
pub enum DatabaseError {
    Connection { message: String },
    QueryExecution { message: String },
}

impl DatabaseError {
    pub fn connection_error(message: &str) -> (e: DatabaseError)
        ensures
            e matches DatabaseError::Connection { message: m } && m@ == message@,
    {
        DatabaseError::Connection { message: message.to_owned() }
    }

    pub fn query_execution_error(message: &str) -> (e: DatabaseError)
        ensures
            e matches DatabaseError::QueryExecution { message: m } && m@ == message@,
    {
        DatabaseError::QueryExecution { message: message.to_owned() }
    }

    /// The human-readable description of the failure.
    pub fn message(&self) -> (r: &str)
        ensures
            match *self {
                DatabaseError::Connection { message } => r@ == message@,
                DatabaseError::QueryExecution { message } => r@ == message@,
            },
    {
        match self {
            DatabaseError::Connection { message } => message.as_str(),
            DatabaseError::QueryExecution { message } => message.as_str(),
        }
    }
}

pub type DatabaseResult<T> = Result<T, DatabaseError>;

/// Connection parameters for the catalog server.
#[derive(Debug)]
pub struct PostgreSQL {
    pub server: String,
    pub port: u16,
    pub user: String,
    pub password: String,
}

impl PostgreSQL {
    pub fn new(server: &str, port: u16, user: &str, password: &str) -> (c: PostgreSQL)
        ensures
            c.server@ == server@,
            c.port == port,
            c.user@ == user@,
            c.password@ == password@,
    {
        PostgreSQL {
            server: server.to_owned(),
            port,
            user: user.to_owned(),
            password: password.to_owned(),
        }
    }

    pub fn server(&self) -> (r: &str)
        ensures
            r@ == self.server@,
    {
        self.server.as_str()
    }

    pub fn port(&self) -> (r: u16)
        ensures
            r == self.port,
    {
        self.port
    }

    pub fn user(&self) -> (r: &str)
        ensures
            r@ == self.user@,
    {
        self.user.as_str()
    }

    pub fn password(&self) -> (r: &str)
        ensures
            r@ == self.password@,
    {
        self.password.as_str()
    }
}

/// The identifier with every embedded double quote doubled.
pub open spec fn escaped_quotes(s: Seq<char>) -> Seq<char>
    decreases s.len(),
{
    if s.len() == 0 {
        Seq::empty()
    } else {
        escaped_quotes(s.drop_last()) + (if s.last() == '"' {
            seq!['"', '"']
        } else {
            seq![s.last()]
        })
    }
}

/// The text of the drop statement for a database, its name quoted and
/// escaped.
pub open spec fn drop_statement_of(name: Seq<char>) -> Seq<char> {
    "drop database \""@ + escaped_quotes(name) + "\""@
}

/// One step of the drop-database operation, for the caller to execute on a
/// dedicated connection.
#[derive(Debug)]
pub enum DropCommand {
    /// Terminate every backend currently bound to the named database.
    TerminateBackends { database: String },
    /// Execute the given statement.
    Execute { sql: String },
}

/// The identifier with every `"` doubled, ready to stand between quotes.
pub fn escape_identifier(name: &str) -> (r: String)
    ensures
        r@ == escaped_quotes(name@),
{
    let n = name.unicode_len();
    let mut out = String::new();
    proof {
        assert(out@ =~= escaped_quotes(name@.take(0)));
    }
    let mut i: usize = 0;
    while i < n
        invariant
            0 <= i <= n,
            n == name@.len(),
            out@ == escaped_quotes(name@.take(i as int)),
        decreases n - i,
    {
        let c = name.get_char(i);
        proof {
            assert(name@.take(i + 1).drop_last() =~= name@.take(i as int));
            assert(name@.take(i + 1).last() == name@[i as int]);
        }
        if c == '"' {
            push_char(&mut out, '"');
            push_char(&mut out, '"');
            proof {
                assert(out@ =~= escaped_quotes(name@.take(i as int)) + seq!['"', '"']);
            }
        } else {
            push_char(&mut out, c);
            proof {
                assert(out@ =~= escaped_quotes(name@.take(i as int)) + seq![c]);
            }
        }
        i += 1;
    }
    proof {
        assert(name@.take(n as int) =~= name@);
    }
    out
}

/// The text of the drop statement for `name`.
pub fn drop_statement(name: &str) -> (r: String)
    ensures
        r@ == drop_statement_of(name@),
{
    let mut sql = String::from_str("drop database \"");
    let escaped = escape_identifier(name);
    sql.append(escaped.as_str());
    sql.append("\"");
    sql
}

/// The drop-database operation as the caller must perform it: first
/// terminate the backends bound to the database, then execute the drop
/// statement with the identifier escaped.
pub fn drop_database_commands(name: &str) -> (cmds: Vec<DropCommand>)
    ensures
        cmds@.len() == 2,
        cmds@[0] matches DropCommand::TerminateBackends { database } && database@ == name@,
        cmds@[1] matches DropCommand::Execute { sql } && sql@ == drop_statement_of(name@),
{
    let mut cmds: Vec<DropCommand> = Vec::new();
    cmds.push(DropCommand::TerminateBackends { database: name.to_owned() });
    cmds.push(DropCommand::Execute { sql: drop_statement(name) });
    cmds
}

} // verus!
