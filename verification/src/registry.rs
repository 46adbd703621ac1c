//! Command descriptors: what the handler reads of a command's definition, and
//! how a descriptor is fetched from the command registry of the process.

use vstd::prelude::*;

verus! {

/// The commands that a descriptor can stand for.
#[derive(Debug, Clone, Copy, PartialEq, Eq, Structural)]
pub enum Command {
    ReadWords,
    WriteWords,
    ReadBits,
    WriteBits,
    Echo,
    ReadRandomWords,
    WriteRandomWords,
    WriteRandomBits,
    ReadBlocks,
    WriteBlocks,
}

impl Command {
    /// Whether the command is one of the batch or block writes.
    pub open spec fn spec_is_write(&self) -> bool {
        *self == Command::WriteWords || *self == Command::WriteBits || *self
            == Command::WriteBlocks
    }

    /// Whether the command is one of the batch or block writes.
    #[verifier::when_used_as_spec(spec_is_write)]
    pub fn is_write(&self) -> (write: bool)
        ensures
            write == self.spec_is_write(),
    {
        match self {
            Command::WriteWords | Command::WriteBits | Command::WriteBlocks => true,
            _ => false,
        }
    }
}

/// How a field is laid out on the wire.
#[derive(Debug, Clone, Copy, PartialEq, Eq, Structural)]
pub enum FieldKind {
    FixedBytes { n: usize, le: bool },
    Words { le: bool },
    Bytes,
    AsciiHex,
}

/// A named field of a request or of a block template.
#[derive(Debug, Clone)]
pub struct FieldSpec {
    pub name: String,
    pub kind: FieldKind,
}

/// A repeating sub-structure of a request body.
#[derive(Debug, Clone)]
pub struct BlockTemplate {
    pub name: String,
    /// The names of the template's fields, in their order.
    pub fields: Vec<String>,
}

/// One entry of a response: which parameter it renders, and how.
#[derive(Debug, Clone)]
pub enum ResponseEntry {
    /// Words, low byte first where `le`.
    BlockWords { name: String, le: bool },
    /// Points packed eight to a byte, from bit 0 up where `lsb_first`.
    BlockBitsPacked { name: String, lsb_first: bool },
    /// Points packed two to a byte, the first in the high nibble where
    /// `high_first`.
    BlockNibbles { name: String, high_first: bool },
    /// ASCII hex digits, as they are.
    AsciiHex { name: String },
}

/// The descriptor of a command.
#[derive(Debug, Clone)]
pub struct CommandDescriptor {
    pub id: Command,
    /// The command code under which the descriptor was found.
    pub command_code: u16,
    /// The subcommand under which the descriptor was found.
    pub subcommand: u16,
    pub request_fields: Vec<FieldSpec>,
    pub response_entries: Vec<ResponseEntry>,
    pub block_templates: Vec<BlockTemplate>,
}

/// A field as contracts see it.
pub struct FieldView {
    pub name: Seq<char>,
    pub kind: FieldKind,
}

/// A block template as contracts see it.
pub struct TemplateView {
    pub name: Seq<char>,
    pub fields: Seq<Seq<char>>,
}

/// A response entry as contracts see it.
pub enum EntryView {
    BlockWords { name: Seq<char>, le: bool },
    BlockBitsPacked { name: Seq<char>, lsb_first: bool },
    BlockNibbles { name: Seq<char>, high_first: bool },
    AsciiHex { name: Seq<char> },
}

/// A descriptor as contracts see it.
pub struct CommandView {
    pub id: Command,
    pub command_code: u16,
    pub subcommand: u16,
    pub request_fields: Seq<FieldView>,
    pub response_entries: Seq<EntryView>,
    pub block_templates: Seq<TemplateView>,
}

impl View for FieldSpec {
    type V = FieldView;

    open spec fn view(&self) -> FieldView {
        FieldView { name: self.name@, kind: self.kind }
    }
}

/// The views of a run of names.
pub open spec fn names_view(names: Seq<String>) -> Seq<Seq<char>> {
    Seq::new(names.len(), |i: int| names[i]@)
}

/// The views of a run of fields.
pub open spec fn field_specs_view(fields: Seq<FieldSpec>) -> Seq<FieldView> {
    Seq::new(fields.len(), |i: int| fields[i]@)
}

impl View for BlockTemplate {
    type V = TemplateView;

    open spec fn view(&self) -> TemplateView {
        TemplateView { name: self.name@, fields: names_view(self.fields@) }
    }
}

/// The views of a run of block templates.
pub open spec fn templates_view(templates: Seq<BlockTemplate>) -> Seq<TemplateView> {
    Seq::new(templates.len(), |i: int| templates[i]@)
}

impl View for ResponseEntry {
    type V = EntryView;

    open spec fn view(&self) -> EntryView {
        match self {
            ResponseEntry::BlockWords { name, le } => EntryView::BlockWords {
                name: name@,
                le: *le,
            },
            ResponseEntry::BlockBitsPacked { name, lsb_first } => EntryView::BlockBitsPacked {
                name: name@,
                lsb_first: *lsb_first,
            },
            ResponseEntry::BlockNibbles { name, high_first } => EntryView::BlockNibbles {
                name: name@,
                high_first: *high_first,
            },
            ResponseEntry::AsciiHex { name } => EntryView::AsciiHex { name: name@ },
        }
    }
}

/// The views of a run of response entries.
pub open spec fn entries_view(entries: Seq<ResponseEntry>) -> Seq<EntryView> {
    Seq::new(entries.len(), |i: int| entries[i]@)
}

impl View for CommandDescriptor {
    type V = CommandView;

    open spec fn view(&self) -> CommandView {
        CommandView {
            id: self.id,
            command_code: self.command_code,
            subcommand: self.subcommand,
            request_fields: field_specs_view(self.request_fields@),
            response_entries: entries_view(self.response_entries@),
            block_templates: templates_view(self.block_templates@),
        }
    }
}

impl EntryView {
    /// The name of the parameter that the entry renders.
    pub open spec fn name(self) -> Seq<char> {
        match self {
            EntryView::BlockWords { name, .. } => name,
            EntryView::BlockBitsPacked { name, .. } => name,
            EntryView::BlockNibbles { name, .. } => name,
            EntryView::AsciiHex { name } => name,
        }
    }
}

/// `melsec_mc::command_registry::CommandRegistry`, the command catalog of
/// the process. It is only searched.
#[verifier::external_type_specification]
#[verifier::external_body]
pub struct ExCommandRegistry(melsec_mc::command_registry::CommandRegistry);

/// `melsec_mc::command_registry::CommandSpec`, a descriptor of the catalog.
/// What the handler reads of it is copied out field by field.
#[verifier::external_type_specification]
#[verifier::external_body]
pub struct ExCommandSpec(melsec_mc::command_registry::CommandSpec);

/// `melsec_mc::plc_series::PLCSeries`, by which a search of the catalog can be
/// narrowed. No value of it is made here.
#[verifier::external_type_specification]
#[verifier::external_body]
pub struct ExPlcSeries(melsec_mc::plc_series::PLCSeries);

/// `CommandRegistry::global` hands out the registry that the process
/// installed, if it installed one. Nothing is claimed of the outcome.
pub assume_specification[ melsec_mc::command_registry::CommandRegistry::global ]() -> (registry:
    Option<&'static melsec_mc::command_registry::CommandRegistry>)
;

/// `CommandRegistry::find_by_code_and_sub` searches the registry for a
/// descriptor with the given command code and subcommand. Nothing is claimed
/// of the outcome: it depends on what the registry was loaded with.
pub assume_specification<'a>[ melsec_mc::command_registry::CommandRegistry::find_by_code_and_sub ](
    registry: &'a melsec_mc::command_registry::CommandRegistry,
    command_code: u16,
    subcommand: u16,
    plc_series: Option<melsec_mc::plc_series::PLCSeries>,
) -> (found: Option<&'a melsec_mc::command_registry::CommandSpec>)
;

/// The `id` of an outside descriptor, variant for variant.
#[verifier::external_body]
fn outside_command(spec: &melsec_mc::command_registry::CommandSpec) -> (id: Command) {
    match spec.id {
        melsec_mc::commands::Command::ReadWords => Command::ReadWords,
        melsec_mc::commands::Command::WriteWords => Command::WriteWords,
        melsec_mc::commands::Command::ReadBits => Command::ReadBits,
        melsec_mc::commands::Command::WriteBits => Command::WriteBits,
        melsec_mc::commands::Command::Echo => Command::Echo,
        melsec_mc::commands::Command::ReadRandomWords => Command::ReadRandomWords,
        melsec_mc::commands::Command::WriteRandomWords => Command::WriteRandomWords,
        melsec_mc::commands::Command::WriteRandomBits => Command::WriteRandomBits,
        melsec_mc::commands::Command::ReadBlocks => Command::ReadBlocks,
        melsec_mc::commands::Command::WriteBlocks => Command::WriteBlocks,
    }
}

/// The number of request fields of an outside descriptor.
#[verifier::external_body]
fn outside_request_field_count(spec: &melsec_mc::command_registry::CommandSpec) -> (count: usize) {
    spec.request_fields.len()
}

/// Request field `i` of an outside descriptor, its kind variant for variant;
/// `None` past the last.
#[verifier::external_body]
fn outside_request_field(spec: &melsec_mc::command_registry::CommandSpec, i: usize) -> (own: Option<
    FieldSpec,
>) {
    let field = spec.request_fields.get(i)?;
    let kind = match field.kind {
        melsec_mc::command_registry::FieldKind::FixedBytes { n, le } => FieldKind::FixedBytes {
            n,
            le,
        },
        melsec_mc::command_registry::FieldKind::Words { le } => FieldKind::Words { le },
        melsec_mc::command_registry::FieldKind::Bytes => FieldKind::Bytes,
        melsec_mc::command_registry::FieldKind::AsciiHex => FieldKind::AsciiHex,
    };
    Some(FieldSpec { name: field.name.clone(), kind })
}

/// The number of response entries of an outside descriptor.
#[verifier::external_body]
fn outside_response_entry_count(spec: &melsec_mc::command_registry::CommandSpec) -> (count: usize) {
    spec.response_entries.len()
}

/// Response entry `i` of an outside descriptor, variant for variant; `None`
/// past the last.
#[verifier::external_body]
fn outside_response_entry(spec: &melsec_mc::command_registry::CommandSpec, i: usize) -> (own:
    Option<ResponseEntry>) {
    Some(match spec.response_entries.get(i)?.clone() {
        melsec_mc::command_registry::ResponseEntry::BlockWords { name, le } => {
            ResponseEntry::BlockWords { name, le }
        },
        melsec_mc::command_registry::ResponseEntry::BlockBitsPacked { name, lsb_first } => {
            ResponseEntry::BlockBitsPacked { name, lsb_first }
        },
        melsec_mc::command_registry::ResponseEntry::BlockNibbles { name, high_first } => {
            ResponseEntry::BlockNibbles { name, high_first }
        },
        melsec_mc::command_registry::ResponseEntry::AsciiHex { name } => ResponseEntry::AsciiHex {
            name,
        },
    })
}

/// The number of block templates of an outside descriptor.
#[verifier::external_body]
fn outside_template_count(spec: &melsec_mc::command_registry::CommandSpec) -> (count: usize) {
    spec.block_templates.len()
}

/// The name of block template `i` of an outside descriptor; `None` past the
/// last.
#[verifier::external_body]
fn outside_template_name(spec: &melsec_mc::command_registry::CommandSpec, i: usize) -> (name: Option<
    String,
>) {
    spec.block_templates.get(i).map(|template| template.name.clone())
}

/// The number of fields of block template `i` of an outside descriptor; 0
/// past the last template.
#[verifier::external_body]
fn outside_template_field_count(spec: &melsec_mc::command_registry::CommandSpec, i: usize) -> (count:
    usize) {
    spec.block_templates.get(i).map_or(0, |template| template.fields.len())
}

/// The name of field `j` of block template `i` of an outside descriptor;
/// `None` past the last.
#[verifier::external_body]
fn outside_template_field_name(
    spec: &melsec_mc::command_registry::CommandSpec,
    i: usize,
    j: usize,
) -> (name: Option<String>) {
    spec.block_templates.get(i)?.fields.get(j).map(|field| field.name.clone())
}

/// Copies what the handler reads of an outside descriptor that was found
/// under the command code `command` and the subcommand `sub`.
fn copy_descriptor(spec: &melsec_mc::command_registry::CommandSpec, command: u16, sub: u16) -> (own:
    CommandDescriptor)
    ensures
        own.command_code == command,
        own.subcommand == sub,
{
    let mut request_fields: Vec<FieldSpec> = Vec::new();
    let field_count: usize = outside_request_field_count(spec);
    let mut i: usize = 0;
    while i < field_count
        invariant
            i <= field_count,
        decreases field_count - i,
    {
        match outside_request_field(spec, i) {
            Some(field) => request_fields.push(field),
            None => {},
        }
        i += 1;
    }
    let mut response_entries: Vec<ResponseEntry> = Vec::new();
    let entry_count: usize = outside_response_entry_count(spec);
    let mut i: usize = 0;
    while i < entry_count
        invariant
            i <= entry_count,
        decreases entry_count - i,
    {
        match outside_response_entry(spec, i) {
            Some(entry) => response_entries.push(entry),
            None => {},
        }
        i += 1;
    }
    let mut block_templates: Vec<BlockTemplate> = Vec::new();
    let template_count: usize = outside_template_count(spec);
    let mut i: usize = 0;
    while i < template_count
        invariant
            i <= template_count,
        decreases template_count - i,
    {
        match outside_template_name(spec, i) {
            Some(name) => {
                let mut fields: Vec<String> = Vec::new();
                let count: usize = outside_template_field_count(spec, i);
                let mut j: usize = 0;
                while j < count
                    invariant
                        j <= count,
                    decreases count - j,
                {
                    match outside_template_field_name(spec, i, j) {
                        Some(field) => fields.push(field),
                        None => {},
                    }
                    j += 1;
                }
                block_templates.push(BlockTemplate { name, fields });
            },
            None => {},
        }
        i += 1;
    }
    CommandDescriptor {
        id: outside_command(spec),
        command_code: command,
        subcommand: sub,
        request_fields,
        response_entries,
        block_templates,
    }
}

/// Asks the command registry of the process for the descriptor of a command
/// code and subcommand. `None` where no registry is installed or it holds no
/// such descriptor. The registry is not part of this library, so nothing is
/// promised of what the descriptor holds.
pub fn lookup_command(command: u16, sub: u16) -> (found: Option<CommandDescriptor>)
    ensures
        found matches Some(descriptor) ==> descriptor.command_code == command
            && descriptor.subcommand == sub,
{
    match melsec_mc::command_registry::CommandRegistry::global() {
        Some(registry) => match registry.find_by_code_and_sub(command, sub, None) {
            Some(spec) => Some(copy_descriptor(spec, command, sub)),
            None => None,
        },
        None => None,
    }
}

} // verus!
