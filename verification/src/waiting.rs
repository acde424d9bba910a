//! How long the program waits for others.

use vstd::prelude::*;

verus! {

/// What a look at a running program shows.
#[derive(Clone, Copy, Debug, PartialEq, Eq, Structural)]
pub enum Polled {
    /// It ended.
    Exited,
    /// It cannot be looked at.
    Broken,
    /// It runs.
    Running,
}

/// What is to be done next about a program.
#[derive(Clone, Copy, Debug, PartialEq, Eq, Structural)]
pub enum Waiting {
    /// Take what it printed.
    Collect,
    /// Report that it cannot be looked at.
    Report,
    /// Look again in a moment.
    Sleep,
    /// Stop it, and take what it printed so far.
    Kill,
}

/// What is to be done next about a program that was started so long ago.
pub open spec fn wait(polled: Polled, elapsed_millis: u128, limit_millis: u128) -> Waiting {
    match polled {
        Polled::Exited => Waiting::Collect,
        Polled::Broken => Waiting::Report,
        Polled::Running => if elapsed_millis < limit_millis {
            Waiting::Sleep
        } else {
            Waiting::Kill
        },
    }
}

/// What is to be done next about a program that was started so long ago.
pub fn next_wait(polled: Polled, elapsed_millis: u128, limit_millis: u128) -> (r: Waiting)
    ensures
        r == wait(polled, elapsed_millis, limit_millis),
{
    match polled {
        Polled::Exited => Waiting::Collect,
        Polled::Broken => Waiting::Report,
        Polled::Running => if elapsed_millis < limit_millis {
            Waiting::Sleep
        } else {
            Waiting::Kill
        },
    }
}

/// The programs that are waited for.
#[derive(Clone, Copy, Debug, PartialEq, Eq, Structural)]
pub enum External {
    /// Python, asked for its version.
    PythonVersion,
    /// The packager, asked for its version.
    PackagerVersion,
    /// The installation of the packager.
    PackagerInstallation,
    /// The check of a script.
    Compilation,
    /// A script, on trial.
    TrialRun,
    /// The packager.
    Packager,
    /// A program that was made, on trial.
    SmokeTest,
    /// A command of the user.
    Shell,
    /// The download of a model.
    ModelDownload,
    /// The making of a model.
    ModelCreation,
    /// The training.
    Training,
}

/// The time in seconds after which a program is stopped.
pub open spec fn limit_secs(program: External) -> u64 {
    match program {
        External::PythonVersion => 10,
        External::PackagerVersion => 20,
        External::PackagerInstallation => 120,
        External::Compilation => 30,
        External::TrialRun => 10,
        External::Packager => 240,
        External::SmokeTest => 5,
        External::Shell => 180,
        External::ModelDownload => 86400,
        External::ModelCreation => 3600,
        External::Training => 21600,
    }
}

/// The time in seconds after which a program is stopped.
pub fn time_limit(program: External) -> (r: u64)
    ensures
        r == limit_secs(program),
{
    match program {
        External::PythonVersion => 10,
        External::PackagerVersion => 20,
        External::PackagerInstallation => 120,
        External::Compilation => 30,
        External::TrialRun => 10,
        External::Packager => 240,
        External::SmokeTest => 5,
        External::Shell => 180,
        External::ModelDownload => 86400,
        External::ModelCreation => 3600,
        External::Training => 21600,
    }
}

/// No program is waited for without end: whichever it is, it is given some time, and at a look
/// behind its limit it is stopped if it still runs, and no other look comes of it in any case.
pub proof fn every_program_is_stopped(program: External, polled: Polled, elapsed_millis: u128)
    ensures
        limit_secs(program) > 0,
        elapsed_millis >= limit_secs(program) * 1000 ==> {
            let next = wait(polled, elapsed_millis, (limit_secs(program) * 1000) as u128);
            next != Waiting::Sleep && (polled is Running ==> next == Waiting::Kill)
        },
        elapsed_millis < limit_secs(program) * 1000 ==> wait(
            polled,
            elapsed_millis,
            (limit_secs(program) * 1000) as u128,
        ) != Waiting::Kill,
{
}

/// A look before the limit never stops a program, and a program that ended is always collected; a
/// download gets a day, a training six hours, the making of a model one, and what is tried out only
/// seconds.
pub proof fn programs_get_their_time(program: External, polled: Polled, elapsed: u128, limit: u128)
    ensures
        wait(Polled::Exited, elapsed, limit) == Waiting::Collect,
        wait(Polled::Broken, elapsed, limit) == Waiting::Report,
        elapsed < limit ==> wait(Polled::Running, elapsed, limit) == Waiting::Sleep,
        elapsed >= limit ==> wait(Polled::Running, elapsed, limit) == Waiting::Kill,
        program is ModelDownload ==> limit_secs(program) == 24 * 60 * 60,
        program is Training ==> limit_secs(program) == 6 * 60 * 60,
        program is ModelCreation ==> limit_secs(program) == 60 * 60,
        program is Packager ==> limit_secs(program) == 4 * 60,
        program is Shell ==> limit_secs(program) == 3 * 60,
        program is PackagerInstallation ==> limit_secs(program) == 2 * 60,
        program is Compilation ==> limit_secs(program) == 30,
        program is PackagerVersion ==> limit_secs(program) == 20,
        program is PythonVersion || program is TrialRun ==> limit_secs(program) == 10,
        program is SmokeTest ==> limit_secs(program) == 5,
{
}

/// What is to be done next about a model server that was started.
#[derive(Clone, Copy, Debug, PartialEq, Eq, Structural)]
pub enum ServerWait {
    /// It is there.
    Ready,
    /// Try again in a moment.
    Sleep,
    /// It is not there in time.
    GiveUp,
}

/// What is to be done next about a model server that was started, after so many tries to reach it:
/// it gets forty of them.
pub open spec fn server_next(reachable: bool, tries: usize) -> ServerWait {
    if reachable {
        ServerWait::Ready
    } else if tries < 40 {
        ServerWait::Sleep
    } else {
        ServerWait::GiveUp
    }
}

/// A server that can be reached is ready, however long it took, and one that cannot is given up only
/// behind its last try, and for good.
pub proof fn servers_get_their_tries(tries: usize, later: usize)
    requires
        tries <= later,
    ensures
        server_next(true, tries) == ServerWait::Ready,
        server_next(false, tries) == ServerWait::GiveUp ==> tries >= 40 && server_next(false, later)
            == ServerWait::GiveUp,
        server_next(false, later) == ServerWait::Sleep ==> later < 40 && server_next(false, tries)
            == ServerWait::Sleep,
        server_next(false, tries) != ServerWait::Ready,
{
}

/// What is to be done next about a model server that was started, after so many tries to reach it:
/// it gets forty of them.
pub fn server_wait(reachable: bool, tries: usize) -> (r: ServerWait)
    ensures
        r == server_next(reachable, tries),
        r == if reachable {
            ServerWait::Ready
        } else if tries < 40 {
            ServerWait::Sleep
        } else {
            ServerWait::GiveUp
        },
{
    if reachable {
        ServerWait::Ready
    } else if tries < 40 {
        ServerWait::Sleep
    } else {
        ServerWait::GiveUp
    }
}

} // verus!
