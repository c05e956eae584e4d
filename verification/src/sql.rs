//! The statements that set up a running cluster. Each can be run any number of times.
use crate::text::contains;
use vstd::prelude::*;

verus! {

/// Creates the role that replication connects as.
pub const REPLICATOR_ROLE_SQL: &'static str = "DO $$
BEGIN
  IF NOT EXISTS (SELECT FROM pg_roles WHERE rolname = 'replicator') THEN
    CREATE ROLE replicator LOGIN REPLICATION PASSWORD NULL;
  END IF;
END
$$";

/// Creates the logical replication slot for change capture.
pub const CDC_SLOT_SQL: &'static str = "DO $$
BEGIN
  IF NOT EXISTS (
    SELECT FROM pg_replication_slots WHERE slot_name = 'cdc'
  ) THEN
    PERFORM pg_create_logical_replication_slot('cdc', 'pgoutput');
  END IF;
END
$$";

/// Creates the publication for change capture; its consumer adds the tables.
pub const CDC_PUBLICATION_SQL: &'static str = "DO $$
BEGIN
  IF NOT EXISTS (SELECT FROM pg_publication WHERE pubname = 'cdc') THEN
    EXECUTE 'CREATE PUBLICATION cdc';
  END IF;
END
$$";

/// Creates the pooler's role, the function with which it looks up passwords, and the rights that
/// it needs to call that function.
pub const PGBOUNCER_AUTH_SQL: &'static str = "DO $$
BEGIN
  IF NOT EXISTS (SELECT FROM pg_roles WHERE rolname = 'pgbouncer') THEN
    CREATE ROLE pgbouncer LOGIN PASSWORD NULL;
  END IF;
END
$$;
CREATE SCHEMA IF NOT EXISTS pgbouncer;
CREATE OR REPLACE FUNCTION pgbouncer.get_auth(p_user text)
  RETURNS TABLE(username text, password text)
  SECURITY DEFINER LANGUAGE sql AS $$
    SELECT usename::text, passwd::text FROM pg_shadow WHERE usename = p_user
  $$;
GRANT USAGE ON SCHEMA pgbouncer TO pgbouncer;
GRANT EXECUTE ON FUNCTION pgbouncer.get_auth(text) TO pgbouncer;";

/// The statements of the pooler's setup, one by one: the role, the schema, the lookup function,
/// and the two rights that the role needs to call it.
pub const PGBOUNCER_ROLE_SQL: &'static str = "DO $$
         BEGIN
           IF NOT EXISTS (SELECT FROM pg_roles WHERE rolname = 'pgbouncer') THEN
             CREATE ROLE pgbouncer LOGIN PASSWORD NULL;
           END IF;
         END
         $$";

pub const PGBOUNCER_SCHEMA_SQL: &'static str = "CREATE SCHEMA IF NOT EXISTS pgbouncer";

pub const PGBOUNCER_LOOKUP_SQL: &'static str = "CREATE OR REPLACE FUNCTION pgbouncer.get_auth(p_user text)
         RETURNS TABLE(username text, password text)
         SECURITY DEFINER LANGUAGE sql AS $$
           SELECT usename::text, passwd::text FROM pg_shadow WHERE usename = p_user
         $$";

pub const PGBOUNCER_USAGE_SQL: &'static str = "GRANT USAGE ON SCHEMA pgbouncer TO pgbouncer";

pub const PGBOUNCER_EXECUTE_SQL: &'static str = "GRANT EXECUTE ON FUNCTION pgbouncer.get_auth(text) TO pgbouncer";

/// The statements make what they are named after, each only where it is not there yet: the role for
/// replication may replicate and has no password; the slot for changes is a logical one; the pooler's
/// role has no password, and looks up the password of one user, with the rights of the function's
/// owner.
pub proof fn law_statements_make_what_they_say()
    ensures
        contains(REPLICATOR_ROLE_SQL@, "CREATE ROLE replicator LOGIN REPLICATION PASSWORD NULL"@),
        contains(REPLICATOR_ROLE_SQL@, "IF NOT EXISTS"@),
        contains(CDC_SLOT_SQL@, "pg_create_logical_replication_slot('cdc', 'pgoutput')"@),
        contains(CDC_SLOT_SQL@, "IF NOT EXISTS"@),
        contains(CDC_PUBLICATION_SQL@, "CREATE PUBLICATION cdc"@),
        contains(CDC_PUBLICATION_SQL@, "IF NOT EXISTS"@),
        contains(PGBOUNCER_ROLE_SQL@, "CREATE ROLE pgbouncer LOGIN PASSWORD NULL"@),
        contains(PGBOUNCER_ROLE_SQL@, "IF NOT EXISTS"@),
        contains(PGBOUNCER_LOOKUP_SQL@, "SECURITY DEFINER"@),
        contains(PGBOUNCER_LOOKUP_SQL@, "SELECT usename::text, passwd::text FROM pg_shadow WHERE usename = p_user"@),
        PGBOUNCER_SCHEMA_SQL@ == "CREATE SCHEMA IF NOT EXISTS pgbouncer"@,
        PGBOUNCER_USAGE_SQL@ == "GRANT USAGE ON SCHEMA pgbouncer TO pgbouncer"@,
        PGBOUNCER_EXECUTE_SQL@
            == "GRANT EXECUTE ON FUNCTION pgbouncer.get_auth(text) TO pgbouncer"@,
{
    assert(contains(REPLICATOR_ROLE_SQL@, "CREATE ROLE replicator LOGIN REPLICATION PASSWORD NULL"@) && contains(REPLICATOR_ROLE_SQL@, "IF NOT EXISTS"@)) by {
        reveal_strlit(
            "DO $$
BEGIN
  IF NOT EXISTS (SELECT FROM pg_roles WHERE rolname = 'replicator') THEN
    CREATE ROLE replicator LOGIN REPLICATION PASSWORD NULL;
  END IF;
END
$$",
        );
        reveal_strlit("CREATE ROLE replicator LOGIN REPLICATION PASSWORD NULL");
        assert(REPLICATOR_ROLE_SQL@.subrange(89, 89 + "CREATE ROLE replicator LOGIN REPLICATION PASSWORD NULL"@.len() as int) =~= "CREATE ROLE replicator LOGIN REPLICATION PASSWORD NULL"@);
        reveal_strlit("IF NOT EXISTS");
        assert(REPLICATOR_ROLE_SQL@.subrange(14, 14 + "IF NOT EXISTS"@.len() as int) =~= "IF NOT EXISTS"@);
    }
    assert(contains(CDC_SLOT_SQL@, "pg_create_logical_replication_slot('cdc', 'pgoutput')"@) && contains(CDC_SLOT_SQL@, "IF NOT EXISTS"@)) by {
        reveal_strlit(
            "DO $$
BEGIN
  IF NOT EXISTS (
    SELECT FROM pg_replication_slots WHERE slot_name = 'cdc'
  ) THEN
    PERFORM pg_create_logical_replication_slot('cdc', 'pgoutput');
  END IF;
END
$$",
        );
        reveal_strlit("pg_create_logical_replication_slot('cdc', 'pgoutput')");
        assert(CDC_SLOT_SQL@.subrange(112, 112 + "pg_create_logical_replication_slot('cdc', 'pgoutput')"@.len() as int) =~= "pg_create_logical_replication_slot('cdc', 'pgoutput')"@);
        reveal_strlit("IF NOT EXISTS");
        assert(CDC_SLOT_SQL@.subrange(14, 14 + "IF NOT EXISTS"@.len() as int) =~= "IF NOT EXISTS"@);
    }
    assert(contains(CDC_PUBLICATION_SQL@, "CREATE PUBLICATION cdc"@) && contains(CDC_PUBLICATION_SQL@, "IF NOT EXISTS"@)) by {
        reveal_strlit(
            "DO $$
BEGIN
  IF NOT EXISTS (SELECT FROM pg_publication WHERE pubname = 'cdc') THEN
    EXECUTE 'CREATE PUBLICATION cdc';
  END IF;
END
$$",
        );
        reveal_strlit("CREATE PUBLICATION cdc");
        assert(CDC_PUBLICATION_SQL@.subrange(97, 97 + "CREATE PUBLICATION cdc"@.len() as int) =~= "CREATE PUBLICATION cdc"@);
        reveal_strlit("IF NOT EXISTS");
        assert(CDC_PUBLICATION_SQL@.subrange(14, 14 + "IF NOT EXISTS"@.len() as int) =~= "IF NOT EXISTS"@);
    }
    assert(contains(PGBOUNCER_ROLE_SQL@, "CREATE ROLE pgbouncer LOGIN PASSWORD NULL"@) && contains(PGBOUNCER_ROLE_SQL@, "IF NOT EXISTS"@)) by {
        reveal_strlit(
            "DO $$
         BEGIN
           IF NOT EXISTS (SELECT FROM pg_roles WHERE rolname = 'pgbouncer') THEN
             CREATE ROLE pgbouncer LOGIN PASSWORD NULL;
           END IF;
         END
         $$",
        );
        reveal_strlit("CREATE ROLE pgbouncer LOGIN PASSWORD NULL");
        assert(PGBOUNCER_ROLE_SQL@.subrange(115, 115 + "CREATE ROLE pgbouncer LOGIN PASSWORD NULL"@.len() as int) =~= "CREATE ROLE pgbouncer LOGIN PASSWORD NULL"@);
        reveal_strlit("IF NOT EXISTS");
        assert(PGBOUNCER_ROLE_SQL@.subrange(32, 32 + "IF NOT EXISTS"@.len() as int) =~= "IF NOT EXISTS"@);
    }
    assert(contains(PGBOUNCER_LOOKUP_SQL@, "SECURITY DEFINER"@) && contains(PGBOUNCER_LOOKUP_SQL@, "SELECT usename::text, passwd::text FROM pg_shadow WHERE usename = p_user"@)) by {
        reveal_strlit(
            "CREATE OR REPLACE FUNCTION pgbouncer.get_auth(p_user text)
         RETURNS TABLE(username text, password text)
         SECURITY DEFINER LANGUAGE sql AS $$
           SELECT usename::text, passwd::text FROM pg_shadow WHERE usename = p_user
         $$",
        );
        reveal_strlit("SECURITY DEFINER");
        assert(PGBOUNCER_LOOKUP_SQL@.subrange(121, 121 + "SECURITY DEFINER"@.len() as int) =~= "SECURITY DEFINER"@);
        reveal_strlit("SELECT usename::text, passwd::text FROM pg_shadow WHERE usename = p_user");
        assert(PGBOUNCER_LOOKUP_SQL@.subrange(168, 168 + "SELECT usename::text, passwd::text FROM pg_shadow WHERE usename = p_user"@.len() as int) =~= "SELECT usename::text, passwd::text FROM pg_shadow WHERE usename = p_user"@);
    }
}

} // verus!
