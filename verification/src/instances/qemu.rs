//! QEMU: the virtual machine that the kernel under test runs in.
use crate::instances::launch::{append_copies, Connection, Launch, LaunchView};
use crate::text::views;
use vstd::prelude::*;
use vstd::string::*;

verus! {

/// The instruction to kill the instance.
pub const KILL: u8 = 0;

/// A QEMU instance with custom arguments.
pub struct Qemu {
    binary: String,
    args: Vec<String>,
    running: bool,
}

/// A QEMU instance with custom arguments.
pub struct QemuView {
    pub binary: Seq<char>,
    pub args: Seq<Seq<char>>,
    /// The instance was started: there is a process, and a channel to the task
    /// that watches it.
    pub running: bool,
}

impl View for Qemu {
    type V = QemuView;

    closed spec fn view(&self) -> QemuView {
        QemuView { binary: self.binary@, args: views(self.args@), running: self.running }
    }
}

/// How an instance is started: with a QMP socket and a log of its interrupts,
/// then with its own arguments. What it writes to its standard output is read;
/// its errors are not.
pub open spec fn qemu_launch(qemu: QemuView) -> LaunchView {
    LaunchView {
        program: qemu.binary,
        args: seq![
            "-qmp"@,
            "unix:external-tests.sock,server,nowait"@,
            "-d"@,
            "int"@,
            "-D"@,
            "log"@,
        ] + qemu.args,
        kill_on_drop: true,
        stdin: Connection::Inherited,
        stdout: Connection::Piped,
        stderr: Connection::Null,
    }
}

/// What the task that watches an instance does next.
#[derive(Clone, Copy, Debug, PartialEq, Eq, Structural)]
pub enum Watch {
    /// It waits for the next instruction.
    Wait,
    /// It kills the instance, and is done.
    Kill,
    /// It is done.
    End,
}

/// What the task that watches an instance does with an instruction, or when
/// there will be no more.
pub open spec fn watch_next(instruction: Option<u8>) -> Watch {
    match instruction {
        Some(i) => if i == KILL {
            Watch::Kill
        } else {
            Watch::Wait
        },
        None => Watch::End,
    }
}

impl Qemu {
    /// An instance that was not started yet.
    pub fn new(binary: &str, args: Vec<String>) -> (r: Qemu)
        ensures
            r@ == (QemuView { binary: binary@, args: views(args@), running: false }),
    {
        Qemu { binary: binary.to_string(), args, running: false }
    }

    /// Once the instance was launched, instructions come: what is to be done
    /// with the next one, or when there will be no more.
    pub fn watch(instruction: Option<u8>) -> (r: Watch)
        ensures
            r == watch_next(instruction),
    {
        match instruction {
            Some(i) => {
                if i == KILL {
                    Watch::Kill
                } else {
                    Watch::Wait
                }
            },
            None => Watch::End,
        }
    }

    /// The message that is put into the channel to the running instance.
    pub fn send_instance(&self, message: u8) -> (r: Result<u8, String>)
        ensures
            self@.running ==> r == Ok::<u8, String>(message),
            !self@.running ==> (r matches Err(e) && e@ == "Cant connect to instance"@),
    {
        if self.running {
            Ok(message)
        } else {
            Err("Cant connect to instance".to_string())
        }
    }

    /// What becomes of a message that the channel took, or did not take.
    pub fn delivered(taken: bool) -> (r: Result<(), String>)
        ensures
            taken ==> r == Ok::<(), String>(()),
            !taken ==> (r matches Err(e) && e@ == "Cant send action to instance"@),
    {
        if taken {
            Ok(())
        } else {
            Err("Cant send action to instance".to_string())
        }
    }

    /// The message that stops the running instance.
    pub fn stop(&self) -> (r: Result<u8, String>)
        ensures
            self@.running ==> r == Ok::<u8, String>(KILL),
            !self@.running ==> (r matches Err(e) && e@ == "Cant connect to instance"@),
    {
        self.send_instance(KILL)
    }

    /// How the instance is started.
    pub fn launch(&self) -> (r: Launch)
        ensures
            r@ == qemu_launch(self@),
    {
        let mut args: Vec<String> = Vec::new();
        args.push("-qmp".to_string());
        args.push("unix:external-tests.sock,server,nowait".to_string());
        args.push("-d".to_string());
        args.push("int".to_string());
        args.push("-D".to_string());
        args.push("log".to_string());
        assert(views(args@) == seq![
            "-qmp"@,
            "unix:external-tests.sock,server,nowait"@,
            "-d"@,
            "int"@,
            "-D"@,
            "log"@,
        ]);
        append_copies(&mut args, &self.args);
        Launch {
            program: self.binary.clone(),
            args,
            kill_on_drop: true,
            stdin: Connection::Inherited,
            stdout: Connection::Piped,
            stderr: Connection::Null,
        }
    }

    /// Launches the instance, given what came of starting it as [`Self::launch`]
    /// says: it is running now, or this is why it is not.
    pub fn run(&mut self, started: Result<(), String>) -> (r: Result<(), String>)
        ensures
            match started {
                Ok(()) => r is Ok && final(self)@ == (QemuView { running: true, ..old(self)@ }),
                Err(why) => r matches Err(e) && e@ == "Can't start QEMU for some reason : "@ + why@
                    && final(self)@ == old(self)@,
            },
    {
        match started {
            Ok(()) => {
                self.running = true;
                Ok(())
            },
            Err(why) => {
                let mut e = "Can't start QEMU for some reason : ".to_string();
                e.append(why.as_str());
                Err(e)
            },
        }
    }
}

/// A running instance that is told to stop is killed; no other message kills it.
pub proof fn only_stop_kills(message: u8)
    ensures
        watch_next(Some(message)) == Watch::Kill <==> message == KILL,
{
}

} // verus!
