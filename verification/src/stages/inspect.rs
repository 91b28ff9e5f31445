//! Looking at captured packets.

use crate::error::Error;
use crate::modmap::ExtModuleMap;
use crate::modmap::NumFunUid;
use crate::text::bracketed;
use crate::text::decimals;
use crate::text::law_lists_of_bytes_are_unambiguous;
use crate::text::lemma_same_parts;
use crate::text::list_of_bytes;
use vstd::prelude::*;

verus! {

/// Which packets are looked at.
#[derive(Debug, Clone, Copy, PartialEq, Eq, Structural)]
pub enum PktIdxSpec {
    Single(usize),
    All,
}

/// The function whose packets are looked at, and which of them.
#[derive(Debug, Clone, Copy, PartialEq, Eq, Structural)]
pub struct PacketInspecSpec(pub NumFunUid, pub PktIdxSpec);

/// The heading of an inspection, as far as it gets.
#[derive(Debug)]
pub struct InspectionHeading {
    pub module: Option<String>,
    pub function: Option<String>,
    /// the arguments of the function are described
    pub described: bool,
}

/// The heading of an inspection in plain values.
#[verifier::ext_equal]
pub struct HeadingModel {
    pub module: Option<Seq<char>>,
    pub function: Option<Seq<char>>,
    pub described: bool,
}

impl View for InspectionHeading {
    type V = HeadingModel;

    open spec fn view(&self) -> HeadingModel {
        HeadingModel {
            module: match self.module {
                Some(name) => Some(name@),
                None => None,
            },
            function: match self.function {
                Some(name) => Some(name@),
                None => None,
            },
            described: self.described,
        }
    }
}

/// What the heading shows: the module if it is known, then the function if it is known, then how
/// its arguments are described if packets of it are there.
pub open spec fn heading_of(
    uid: NumFunUid,
    modules: ExtModuleMap,
    packet_count: Option<u32>,
) -> HeadingModel {
    let module = modules.knows_module(uid.module_id);
    let function = module && modules.knows_function(uid);
    HeadingModel {
        module: if module {
            Some(modules.module_name(uid.module_id))
        } else {
            None
        },
        function: if function {
            Some(modules.function(uid).name)
        } else {
            None
        },
        described: function && packet_count is Some,
    }
}

/// The heading names the module and the function that are looked at, by the names that they are
/// known under, and names nothing that is not known.
pub proof fn law_heading_names_what_is_looked_at(
    uid: NumFunUid,
    modules: ExtModuleMap,
    packet_count: Option<u32>,
)
    requires
        modules.wf(),
    ensures
        ({
            let heading = heading_of(uid, modules, packet_count);
            &&& heading.module is Some <==> modules.knows_module(uid.module_id)
            &&& heading.module is Some ==> heading.module->Some_0 == modules.module_name(
                uid.module_id,
            )
            &&& heading.function is Some <==> modules.knows_function(uid)
            &&& heading.function is Some ==> heading.function->Some_0 == modules.function(uid).name
            &&& heading.described ==> heading.function is Some && packet_count is Some
        }),
{
    if modules.knows_function(uid) {
        modules.lemma_functions_have_modules(uid);
    }
}

/// The heading of the inspection, and whether the packets can be looked at: the function has to
/// be known, packets of it have to be there, and a single packet has to be one of them.
pub fn inspect_packet(
    spec: &PacketInspecSpec,
    modules: &ExtModuleMap,
    packet_count: Option<u32>,
) -> (r: (InspectionHeading, Result<(), Error>))
    requires
        modules.wf(),
    ensures
        r.0@ == heading_of(spec.0, *modules, packet_count),
        r.1 == ({
            let uid = spec.0;
            if !modules.knows_module(uid.module_id) {
                Err::<(), Error>(Error::UnknownModule(uid.module_id))
            } else if !modules.knows_function(uid) {
                Err(Error::UnknownFunction(uid))
            } else {
                match packet_count {
                    None => Err(Error::NoPackets(uid)),
                    Some(count) => match spec.1 {
                        PktIdxSpec::Single(index) if index >= count as usize => Err(
                            Error::PacketIndexTooLarge { index, count: count as usize },
                        ),
                        _ => Ok(()),
                    },
                }
            }
        }),
{
    let uid = spec.0;
    let mut heading = InspectionHeading { module: None, function: None, described: false };
    match modules.get_module_string_id(uid.module_id) {
        Some(name) => {
            heading.module = Some(name.clone());
        },
        None => {
            return (heading, Err(Error::UnknownModule(uid.module_id)));
        },
    }
    match modules.get_function_name(uid) {
        Some(name) => {
            heading.function = Some(name.clone());
        },
        None => {
            return (heading, Err(Error::UnknownFunction(uid)));
        },
    }
    let count = match packet_count {
        Some(count) => count as usize,
        None => {
            return (heading, Err(Error::NoPackets(uid)));
        },
    };
    heading.described = true;
    if let PktIdxSpec::Single(index) = spec.1 {
        if index >= count {
            return (heading, Err(Error::PacketIndexTooLarge { index, count }));
        }
    }
    (heading, Ok(()))
}

/// What to do after a packet was read in the course of an inspection.
#[derive(Debug)]
pub enum InspectStep {
    /// show this line for the packet with the index, then go on with the next index
    ShowAndReadOn { index: usize, line: String },
    /// show this line for the packet with the index, and no more
    ShowAndStop { index: usize, line: String },
    /// read the next packet
    ReadOn,
    /// nothing more
    Stop,
    /// the packet with the index could not be read
    Failed { index: usize },
}

/// The line for a packet.
pub open spec fn packet_line(packet: Seq<u8>) -> Seq<char> {
    "Raw packet: "@ + bracketed(decimals(packet))
}

/// The line for a packet shows its bytes: where two lines are the same, the packets are.
pub proof fn law_lines_show_the_bytes(a: Seq<u8>, b: Seq<u8>)
    requires
        packet_line(a) == packet_line(b),
    ensures
        a == b,
{
    let front = "Raw packet: "@;
    lemma_same_parts(front, bracketed(decimals(a)), front, bracketed(decimals(b)));
    law_lists_of_bytes_are_unambiguous(a, b);
}

/// What is shown when packets are looked at one after the other: of a single one, that one, else
/// every packet that there is. Each is shown under its index, and nothing is shown twice.
pub proof fn law_wanted_packets_are_shown(
    wanted: PktIdxSpec,
    index: usize,
    packet: Option<Vec<u8>>,
    step: InspectStep,
)
    requires
        call_ensures(inspect_step, (wanted, index, packet), step),
    ensures
        wanted is All && packet is Some <==> step is ShowAndReadOn,
        step matches InspectStep::ShowAndReadOn { index: at, line } ==> at == index && line@
            == packet_line(packet->Some_0@),
        step matches InspectStep::ShowAndStop { index: at, line } ==> at == index && line@
            == packet_line(packet->Some_0@) && wanted is Single && packet is Some,
        wanted == PktIdxSpec::Single(index) && packet is Some ==> step is ShowAndStop,
        wanted == PktIdxSpec::Single(index) && packet is None ==> step is Failed,
        wanted matches PktIdxSpec::Single(i) ==> index < i ==> step is ReadOn,
        wanted is All && packet is None <==> step is Stop,
{
}

/// What to do with the packet that was read at position `index`. For a single packet, those in
/// front of it are passed over.
pub fn inspect_step(wanted: PktIdxSpec, index: usize, packet: Option<Vec<u8>>) -> (step:
    InspectStep)
    ensures
        match (wanted, packet) {
            (PktIdxSpec::Single(i), p) => if index < i {
                step is ReadOn
            } else {
                match p {
                    Some(bytes) => step matches InspectStep::ShowAndStop { index: at, line } && at
                        == index && line@ == packet_line(bytes@),
                    None => step == (InspectStep::Failed { index }),
                }
            },
            (PktIdxSpec::All, Some(bytes)) => step matches InspectStep::ShowAndReadOn {
                index: at,
                line,
            } && at == index && line@ == packet_line(bytes@),
            (PktIdxSpec::All, None) => step is Stop,
        },
{
    match wanted {
        PktIdxSpec::Single(i) => {
            if index < i {
                return InspectStep::ReadOn;
            }
            match packet {
                Some(bytes) => InspectStep::ShowAndStop {
                    index,
                    line: "Raw packet: ".to_owned().concat(list_of_bytes(bytes.as_slice()).as_str()),
                },
                None => InspectStep::Failed { index },
            }
        },
        PktIdxSpec::All => match packet {
            Some(bytes) => InspectStep::ShowAndReadOn {
                index,
                line: "Raw packet: ".to_owned().concat(list_of_bytes(bytes.as_slice()).as_str()),
            },
            None => InspectStep::Stop,
        },
    }
}

} // verus!
