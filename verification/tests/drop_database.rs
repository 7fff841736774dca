use pgstate::postgres::drop_database_commands;
use pgstate::postgres::drop_statement;
use pgstate::postgres::escape_identifier;
use pgstate::postgres::DatabaseError;
use pgstate::postgres::DropCommand;
use pgstate::postgres::PostgreSQL;

#[test]
fn embedded_quotes_are_doubled() {
    assert_eq!(escape_identifier("my\"db"), "my\"\"db");
    assert_eq!(escape_identifier("plain"), "plain");
    assert_eq!(escape_identifier("\"\""), "\"\"\"\"");
    assert_eq!(escape_identifier(""), "");
}

#[test]
fn drop_statement_quotes_and_escapes_the_identifier() {
    assert_eq!(drop_statement("my\"db"), "drop database \"my\"\"db\"");
    assert_eq!(drop_statement("accounts"), "drop database \"accounts\"");
}

#[test]
fn backends_are_terminated_before_the_drop() {
    let cmds = drop_database_commands("my\"db");
    assert_eq!(cmds.len(), 2);
    match &cmds[0] {
        DropCommand::TerminateBackends { database } => assert_eq!(database, "my\"db"),
        other => panic!("unexpected first command: {:?}", other),
    }
    match &cmds[1] {
        DropCommand::Execute { sql } => assert_eq!(sql, "drop database \"my\"\"db\""),
        other => panic!("unexpected second command: {:?}", other),
    }
}

#[test]
fn connection_parameters_are_kept() {
    let pg = PostgreSQL::new("db.example.org", 5433, "admin", "secret");
    assert_eq!(pg.server(), "db.example.org");
    assert_eq!(pg.port(), 5433);
    assert_eq!(pg.user(), "admin");
    assert_eq!(pg.password(), "secret");
}

#[test]
fn database_errors_carry_their_messages() {
    let c = DatabaseError::connection_error("refused");
    assert_eq!(c.message(), "refused");
    let q = DatabaseError::query_execution_error("syntax");
    assert_eq!(q.message(), "syntax");
}
