//! The migration tasks as each proxy drives them.
//!
//! The migrating side owns the five-phase handshake: it probes the
//! destination proxy with `PRECHECK`, blocks writes locally, probes
//! with `PRESWITCH`, streams the data, then probes with `FINALSWITCH`.
//! The importing side answers those probes and owns the destination
//! slot. Network I/O lives with the caller: these types decide what to
//! send and how every reply or completion changes the phase, so the
//! whole protocol logic is checked while the sockets stay outside.

use vstd::prelude::*;
use crate::cluster::{MigrationMeta, MigrationTaskMeta, SlotRange, SlotRangeTag, str_views,
    MigrationTaskMetaV, SlotRangeV, SlotRangeTagV};
use crate::migration::{AtomicMigrationState, MgrSubCmd, MigrationError, MigrationState,
    SwitchArg, SwitchArgV, state_rank, switch_arg_strings};
use crate::version::UNDERMOON_MIGRATION_VERSION;

verus! {

/// Why a command could not be routed by a migration task.
#[derive(Debug)]
pub enum DBSendError<T> {
    SlotNotFound(T),
    MigrationError,
}

/// What the driving loop should do next for a migrating task.
#[derive(Debug, Clone, Copy, PartialEq, Eq, Structural)]
pub enum TaskAction {
    SendPreCheck,
    LocalBlock,
    SendPreSwitch,
    RunScan,
    SendFinalSwitch,
    Done,
    Canceled,
}

/// One handshake probe on the wire: the control word, the
/// sub-command word, then the payload that names the migration under
/// a `Migrating` marker.
pub open spec fn switch_cmd_strings(
    sub_cmd: MgrSubCmd,
    version: Seq<char>,
    db_name: Seq<char>,
    start: nat,
    end: nat,
    meta: crate::cluster::MigrationMetaV,
) -> Seq<Seq<char>> {
    let word: Seq<char> = match sub_cmd {
        MgrSubCmd::PreCheck => "PRECHECK"@,
        MgrSubCmd::PreSwitch => "PRESWITCH"@,
        MgrSubCmd::FinalSwitch => "FINALSWITCH"@,
    };
    seq!["UMCTL"@, word] + switch_arg_strings(
        SwitchArgV {
            version,
            meta: MigrationTaskMetaV {
                db_name,
                slot_range: SlotRangeV { start, end, tag: SlotRangeTagV::Migrating(meta) },
            },
        },
    )
}

/// The source side of one slot migration.
#[derive(Debug)]
pub struct RedisScanMigratingTask {
    pub db_name: String,
    pub slot_range: (usize, usize),
    pub meta: MigrationMeta,
    pub state: AtomicMigrationState,
    pub start_token: bool,
    pub stop_token: bool,
    pub stopped: bool,
}

impl RedisScanMigratingTask {
    /// A fresh task: first phase, not yet started, not yet stopped.
    pub fn new(db_name: String, slot_range: (usize, usize), meta: MigrationMeta) -> (r: Self)
        ensures
            r.state.state() == MigrationState::PreCheck,
            r.start_token && r.stop_token && !r.stopped,
            r.db_name@ == db_name@,
            r.slot_range == slot_range,
            r.meta@ == meta@,
    {
        RedisScanMigratingTask {
            db_name,
            slot_range,
            meta,
            state: AtomicMigrationState::new(),
            start_token: true,
            stop_token: true,
            stopped: false,
        }
    }

    /// The phase the task is in.
    pub fn get_state(&self) -> (r: MigrationState)
        ensures
            r == self.state.state(),
    {
        self.state.get_state()
    }

    /// Claims the right to run the task. One-shot: a second call fails
    /// with `AlreadyStarted`.
    pub fn start(&mut self) -> (r: Result<(), MigrationError>)
        ensures
            old(self).start_token ==> r is Ok && *final(self) == (RedisScanMigratingTask {
                start_token: false,
                ..*old(self)
            }),
            !old(self).start_token ==> (r matches Result::Err(MigrationError::AlreadyStarted))
                && *final(self) == *old(self),
    {
        if self.start_token {
            self.start_token = false;
            Ok(())
        } else {
            Err(MigrationError::AlreadyStarted)
        }
    }

    /// Sends the one-shot stop signal; the running task collapses at
    /// its next step. A second call fails with `AlreadyEnded`.
    pub fn stop(&mut self) -> (r: Result<(), MigrationError>)
        ensures
            old(self).stop_token ==> r is Ok && *final(self) == (RedisScanMigratingTask {
                stop_token: false,
                stopped: true,
                ..*old(self)
            }),
            !old(self).stop_token ==> (r matches Result::Err(MigrationError::AlreadyEnded))
                && *final(self) == *old(self),
    {
        if self.stop_token {
            self.stop_token = false;
            self.stopped = true;
            Ok(())
        } else {
            Err(MigrationError::AlreadyEnded)
        }
    }

    /// Builds the probe command for a handshake sub-command.
    pub fn gen_switch_arg(&self, sub_cmd: MgrSubCmd) -> (r: Vec<String>)
        ensures
            str_views(r@) == switch_cmd_strings(
                sub_cmd,
                UNDERMOON_MIGRATION_VERSION@,
                self.db_name@,
                self.slot_range.0 as nat,
                self.slot_range.1 as nat,
                self.meta@,
            ),
    {
        let mut cmd: Vec<String> = Vec::new();
        cmd.push(String::from_str("UMCTL"));
        cmd.push(String::from_str(sub_cmd.as_str()));
        let arg = SwitchArg {
            version: String::from_str(UNDERMOON_MIGRATION_VERSION),
            meta: MigrationTaskMeta {
                db_name: self.db_name.clone(),
                slot_range: SlotRange {
                    start: self.slot_range.0,
                    end: self.slot_range.1,
                    tag: SlotRangeTag::Migrating(self.meta.duplicate()),
                },
            },
        };
        let mut tail = arg.into_strings();
        cmd.append(&mut tail);
        proof {
            assert(str_views(cmd@) =~= switch_cmd_strings(
                sub_cmd,
                UNDERMOON_MIGRATION_VERSION@,
                self.db_name@,
                self.slot_range.0 as nat,
                self.slot_range.1 as nat,
                self.meta@,
            ));
        }
        cmd
    }

    /// Where every probe goes: the migration's
    /// destination proxy. No routing is cached; each call consults the
    /// current metadata.
    pub fn probe_target(&self) -> (r: String)
        ensures
            r@ == self.meta@.dst_proxy,
    {
        self.meta.dst_proxy_address.clone()
    }

    /// What the driving loop should do next; the `Send` actions probe
    /// the destination proxy named by `probe_target` with the command
    /// built by `gen_switch_arg`. A stopped task cancels at once
    /// unless it already committed.
    pub fn next_action(&self) -> (r: TaskAction)
        ensures
            r == spec_next_action(*self),
    {
        if self.stopped && !matches!(self.state.get_state(), MigrationState::SwitchCommitted) {
            return TaskAction::Canceled;
        }
        match self.state.get_state() {
            MigrationState::PreCheck => TaskAction::SendPreCheck,
            MigrationState::PreBlocking => TaskAction::LocalBlock,
            MigrationState::PreSwitch => TaskAction::SendPreSwitch,
            MigrationState::Scanning => TaskAction::RunScan,
            MigrationState::FinalSwitch => TaskAction::SendFinalSwitch,
            MigrationState::SwitchCommitted => TaskAction::Done,
        }
    }

    /// Digests the destination's reply to the current probe. Any
    /// error reply means "try again": the phase stays. Any other reply
    /// acknowledges the probe and the task advances one phase.
    pub fn handle_reply(&mut self, reply: &crate::protocol::Resp) -> (advanced: bool)
        requires
            old(self).state.state() is PreCheck || old(self).state.state() is PreSwitch || old(
                self,
            ).state.state() is FinalSwitch,
        ensures
            advanced == !(reply is Error),
            advanced ==> state_rank(final(self).state.state()) == state_rank(
                old(self).state.state(),
            ) + 1,
            !advanced ==> *final(self) == *old(self),
            final(self).db_name == old(self).db_name,
            final(self).slot_range == old(self).slot_range,
            final(self).meta == old(self).meta,
            final(self).start_token == old(self).start_token,
            final(self).stop_token == old(self).stop_token,
            final(self).stopped == old(self).stopped,
    {
        if matches!(reply, crate::protocol::Resp::Error(_)) {
            return false;
        }
        match self.state.get_state() {
            MigrationState::PreCheck => {
                self.state.set_state(MigrationState::PreBlocking);
            },
            MigrationState::PreSwitch => {
                self.state.set_state(MigrationState::Scanning);
            },
            _ => {
                self.state.set_state(MigrationState::SwitchCommitted);
            },
        }
        true
    }

    /// The purely local blocking step: once writes on the range are
    /// held back, the task may ask the destination to switch.
    pub fn pre_block(&mut self)
        requires
            old(self).state.state() is PreBlocking,
        ensures
            *final(self) == (RedisScanMigratingTask {
                state: AtomicMigrationState { inner: 2 },
                ..*old(self)
            }),
            final(self).state.state() is PreSwitch,
    {
        self.state.set_state(MigrationState::PreSwitch);
    }

    /// The scan engine finished streaming: time for the final switch.
    pub fn handle_scan_complete(&mut self)
        requires
            old(self).state.state() is Scanning,
        ensures
            *final(self) == (RedisScanMigratingTask {
                state: AtomicMigrationState { inner: 4 },
                ..*old(self)
            }),
            final(self).state.state() is FinalSwitch,
    {
        self.state.set_state(MigrationState::FinalSwitch);
    }

    /// Routes a client command on the migrating range: before the
    /// handshake engages the command falls through to normal routing;
    /// afterwards it is redirected — to this side's own proxy while
    /// writes are still served here, to the destination proxy once
    /// redirected writes are accepted there.
    pub fn send<T>(&self, cmd_task: T) -> (r: Result<(String, T), DBSendError<T>>)
        ensures
            self.state.state() is PreCheck <==> (r matches Result::Err(DBSendError::SlotNotFound(
                t,
            )) && t == cmd_task),
            !(self.state.state() is PreCheck) ==> (r matches Result::Ok(p) && p.1 == cmd_task
                && p.0@ == (if state_rank(self.state.state()) < 2 {
                self.meta@.src_proxy
            } else {
                self.meta@.dst_proxy
            })),
    {
        if matches!(self.state.get_state(), MigrationState::PreCheck) {
            return Err(DBSendError::SlotNotFound(cmd_task));
        }
        if self.state.get_state().rank() < 2 {
            Ok((self.meta.src_proxy_address.clone(), cmd_task))
        } else {
            Ok((self.meta.dst_proxy_address.clone(), cmd_task))
        }
    }
}

/// What the driving loop should do next for a migrating task.
pub open spec fn spec_next_action(t: RedisScanMigratingTask) -> TaskAction {
    if t.stopped && !(t.state.state() is SwitchCommitted) {
        TaskAction::Canceled
    } else {
        match t.state.state() {
            MigrationState::PreCheck => TaskAction::SendPreCheck,
            MigrationState::PreBlocking => TaskAction::LocalBlock,
            MigrationState::PreSwitch => TaskAction::SendPreSwitch,
            MigrationState::Scanning => TaskAction::RunScan,
            MigrationState::FinalSwitch => TaskAction::SendFinalSwitch,
            MigrationState::SwitchCommitted => TaskAction::Done,
        }
    }
}

/// The destination side of one slot migration.
#[derive(Debug)]
pub struct RedisScanImportingTask {
    pub db_name: String,
    pub meta: MigrationMeta,
    pub state: AtomicMigrationState,
    pub start_token: bool,
    pub stop_token: bool,
    pub stopped: bool,
}

impl RedisScanImportingTask {
    /// A fresh task: first phase, not yet started, not yet stopped.
    pub fn new(db_name: String, meta: MigrationMeta) -> (r: Self)
        ensures
            r.state.state() == MigrationState::PreCheck,
            r.start_token && r.stop_token && !r.stopped,
            r.db_name@ == db_name@,
            r.meta@ == meta@,
    {
        RedisScanImportingTask {
            db_name,
            meta,
            state: AtomicMigrationState::new(),
            start_token: true,
            stop_token: true,
            stopped: false,
        }
    }

    /// The phase the task is in.
    pub fn get_state(&self) -> (r: MigrationState)
        ensures
            r == self.state.state(),
    {
        self.state.get_state()
    }

    /// Claims the right to run the task; a second call fails with
    /// `AlreadyStarted`.
    pub fn start(&mut self) -> (r: Result<(), MigrationError>)
        ensures
            old(self).start_token ==> r is Ok && *final(self) == (RedisScanImportingTask {
                start_token: false,
                ..*old(self)
            }),
            !old(self).start_token ==> (r matches Result::Err(MigrationError::AlreadyStarted))
                && *final(self) == *old(self),
    {
        if self.start_token {
            self.start_token = false;
            Ok(())
        } else {
            Err(MigrationError::AlreadyStarted)
        }
    }

    /// Sends the one-shot stop signal; a second call fails with
    /// `AlreadyEnded`.
    pub fn stop(&mut self) -> (r: Result<(), MigrationError>)
        ensures
            old(self).stop_token ==> r is Ok && *final(self) == (RedisScanImportingTask {
                stop_token: false,
                stopped: true,
                ..*old(self)
            }),
            !old(self).stop_token ==> (r matches Result::Err(MigrationError::AlreadyEnded))
                && *final(self) == *old(self),
    {
        if self.stop_token {
            self.stop_token = false;
            self.stopped = true;
            Ok(())
        } else {
            Err(MigrationError::AlreadyEnded)
        }
    }

    /// Routes a client command on the importing range: while the
    /// handshake has not engaged, clients are redirected back to the
    /// source proxy; afterwards the command falls through to normal
    /// local routing.
    pub fn send<T>(&self, cmd_task: T) -> (r: Result<(String, T), DBSendError<T>>)
        ensures
            self.state.state() is PreCheck ==> (r matches Result::Ok(p) && p.1 == cmd_task
                && p.0@ == self.meta@.src_proxy),
            !(self.state.state() is PreCheck) ==> (r matches Result::Err(
                DBSendError::SlotNotFound(t),
            ) && t == cmd_task),
    {
        if matches!(self.state.get_state(), MigrationState::PreCheck) {
            Ok((self.meta.src_proxy_address.clone(), cmd_task))
        } else {
            Err(DBSendError::SlotNotFound(cmd_task))
        }
    }

    /// Answers one handshake sub-command. A payload on another
    /// protocol version is fatal; otherwise the phase advances to the
    /// one the sub-command names, never backwards.
    pub fn handle_switch(&mut self, switch_arg: SwitchArg, sub_cmd: MgrSubCmd) -> (r: Result<
        (),
        MigrationError,
    >)
        ensures
            switch_arg.version@ != UNDERMOON_MIGRATION_VERSION@ <==> (r matches Result::Err(
                MigrationError::IncompatibleVersion,
            )),
            switch_arg.version@ == UNDERMOON_MIGRATION_VERSION@ <==> r is Ok,
            r is Err ==> *final(self) == *old(self),
            r is Ok ==> state_rank(final(self).state.state()) == (if state_rank(
                old(self).state.state(),
            ) > switch_target_rank(sub_cmd) {
                state_rank(old(self).state.state())
            } else {
                switch_target_rank(sub_cmd)
            }),
            final(self).db_name == old(self).db_name,
            final(self).meta == old(self).meta,
            final(self).start_token == old(self).start_token,
            final(self).stop_token == old(self).stop_token,
            final(self).stopped == old(self).stopped,
    {
        let expected = String::from_str(UNDERMOON_MIGRATION_VERSION);
        if !switch_arg.version.eq(&expected) {
            return Err(MigrationError::IncompatibleVersion);
        }
        match sub_cmd {
            MgrSubCmd::PreCheck => self.state.set_state(MigrationState::PreCheck),
            MgrSubCmd::PreSwitch => self.state.set_state(MigrationState::PreSwitch),
            MgrSubCmd::FinalSwitch => self.state.set_state(MigrationState::SwitchCommitted),
        }
        Ok(())
    }
}

/// The phase an importing task reaches when it accepts a sub-command.
pub open spec fn switch_target_rank(sub_cmd: MgrSubCmd) -> int {
    match sub_cmd {
        MgrSubCmd::PreCheck => 0,
        MgrSubCmd::PreSwitch => 2,
        MgrSubCmd::FinalSwitch => 5,
    }
}

} // verus!
