//! The packets a client sends in the play phase. They are recognised and
//! parsed; the server takes no action on them. Floating-point fields are kept
//! as their IEEE 754 bit patterns.
use vstd::prelude::*;
use vstd::utf8::{decode_utf8, encode_utf8};

use crate::data::{
    direction_of, parse_slot, spec_binary_choice, spec_identifier, spec_slot, Arm, Direction, Hand,
    Identifier, Position, Slot,
};
use crate::packets::{packet_id, spec_be, spec_varint32};
use crate::parse::{
    after, be_i16, be_u32, be_u64, be_u8, be_value, boolean, consumed, is_suffix,
    lemma_suffix_trans, parses_to, signed_of, spec_boolean, spec_var_str, var_str_with_max_length,
    ParseError, DEFAULT_MAX_STRING_LENGTH,
};
use crate::varint::varint;

verus! {

/// What a client reports it is doing with an item or block.
#[derive(Debug, Clone, Copy, PartialEq, Eq, Structural)]
pub enum DiggingStatus {
    StartedDigging,
    CancelledDigging,
    FinishedDigging,
    DropItemStack,
    DropItem,
    FinishUsing,
    SwapItem,
}

/// What a client reports its player entity doing.
#[derive(Debug, Clone, Copy, PartialEq, Eq, Structural)]
pub enum EntityActionVariant {
    StartSneaking,
    StopSneaking,
    LeaveBed,
    StartSprinting,
    StopSprinting,
    StartJumpingWithHorse,
    StopJumpingWithHorse,
    OpenHorseInventory,
    StartFlyingWithElytra,
}

/// How a player interacts with an entity.
#[derive(Debug, Clone, Copy, PartialEq, Eq)]
pub enum EntityInteraction {
    Interact(Hand),
    Attack,
    /// The target point's x, y and z as `f32` bit patterns, and the hand.
    InteractAt(u32, u32, u32, Hand),
}

/// The packets of the play phase, by id.
#[derive(Debug, Clone)]
pub enum PlayPacket {
    TeleportConfirm { teleport_id: u32 },
    QueryBlockNbt { transaction_id: u32, location: Position },
    SetDifficulty { new_difficulty: u8 },
    ChatMessage { message: String },
    ClientStatus { action_id: u32 },
    ClientSettings {
        locale: String,
        view_distance: u8,
        chat_mode: u32,
        chat_colors: bool,
        displayed_skin_parts: u8,
        main_arm: Arm,
        enable_text_filtering: bool,
    },
    TabComplete { transaction_id: u32, text: String },
    ClickWindowButton { window_id: u8, button_id: u8 },
    ClickWindow {
        window_id: u8,
        state_id: u32,
        slot: i16,
        button: u8,
        mode: u32,
        slots: Vec<(i16, Slot)>,
        clicked_item: Slot,
    },
    CloseWindow { window_id: u8 },
    PluginMessage { channel: Identifier, data: Vec<u8> },
    EditBook { hand: Hand, entries: Vec<String>, title: Option<String> },
    QueryEntityNbt { transaction_id: u32, entity_id: u32 },
    InteractEntity { entity_id: u32, interaction: EntityInteraction, is_sneaking: bool },
    GenerateStructure { location: Position, levels: u32, keep_jigsaws: bool },
    KeepAlive(u64),
    LockDifficulty { locked: bool },
    /// x, y, z as `f64` bit patterns.
    PlayerPosition { x: u64, y: u64, z: u64, on_ground: bool },
    PlayerPositionAndRotation { x: u64, y: u64, z: u64, yaw: u32, pitch: u32, on_ground: bool },
    PlayerRotation { yaw: u32, pitch: u32, on_ground: bool },
    PlayerMovement { on_ground: bool },
    VehicleMove { x: u64, y: u64, z: u64, yaw: u32, pitch: u32 },
    SteerBoat { left_paddle_turning: bool, right_paddle_turning: bool },
    PickItem { slot_id: u32 },
    CraftRecipeRequest { window_id: u8, recipe: Identifier, make_all: bool },
    PlayerAbilities { flags: u8 },
    PlayerDigging { status: DiggingStatus, location: Position, face: Direction },
    EntityAction { entity_id: u32, action: EntityActionVariant, jump_boost: u32 },
    SteerVehicle { sideways: u32, forward: u32, flags: u8 },
    Pong(u32),
    SetRecipeBookState { book_id: u32, book_open: bool, filter_active: bool },
    SetDisplayedRecipe { recipe_id: Identifier },
}

/// The highest play-phase packet id.
pub const LAST_PLAY_PACKET_ID: u32 = 0x1f;

impl PlayPacket {
    /// The packet's id.
    pub open spec fn id(&self) -> u32 {
        match self {
            PlayPacket::TeleportConfirm { .. } => 0x00,
            PlayPacket::QueryBlockNbt { .. } => 0x01,
            PlayPacket::SetDifficulty { .. } => 0x02,
            PlayPacket::ChatMessage { .. } => 0x03,
            PlayPacket::ClientStatus { .. } => 0x04,
            PlayPacket::ClientSettings { .. } => 0x05,
            PlayPacket::TabComplete { .. } => 0x06,
            PlayPacket::ClickWindowButton { .. } => 0x07,
            PlayPacket::ClickWindow { .. } => 0x08,
            PlayPacket::CloseWindow { .. } => 0x09,
            PlayPacket::PluginMessage { .. } => 0x0a,
            PlayPacket::EditBook { .. } => 0x0b,
            PlayPacket::QueryEntityNbt { .. } => 0x0c,
            PlayPacket::InteractEntity { .. } => 0x0d,
            PlayPacket::GenerateStructure { .. } => 0x0e,
            PlayPacket::KeepAlive(_) => 0x0f,
            PlayPacket::LockDifficulty { .. } => 0x10,
            PlayPacket::PlayerPosition { .. } => 0x11,
            PlayPacket::PlayerPositionAndRotation { .. } => 0x12,
            PlayPacket::PlayerRotation { .. } => 0x13,
            PlayPacket::PlayerMovement { .. } => 0x14,
            PlayPacket::VehicleMove { .. } => 0x15,
            PlayPacket::SteerBoat { .. } => 0x16,
            PlayPacket::PickItem { .. } => 0x17,
            PlayPacket::CraftRecipeRequest { .. } => 0x18,
            PlayPacket::PlayerAbilities { .. } => 0x19,
            PlayPacket::PlayerDigging { .. } => 0x1a,
            PlayPacket::EntityAction { .. } => 0x1b,
            PlayPacket::SteerVehicle { .. } => 0x1c,
            PlayPacket::Pong(_) => 0x1d,
            PlayPacket::SetRecipeBookState { .. } => 0x1e,
            PlayPacket::SetDisplayedRecipe { .. } => 0x1f,
        }
    }
}

/// Chains two field specs: the second reads from where the first stopped,
/// and the sizes add up.
pub open spec fn then<A, B>(
    r: Result<(A, nat), ParseError>,
    s: Seq<u8>,
    f: spec_fn(A, Seq<u8>) -> Result<(B, nat), ParseError>,
) -> Result<(B, nat), ParseError> {
    match r {
        Err(e) => Err(e),
        Ok((a, n)) => match f(a, after(s, n as int)) {
            Err(e) => Err(e),
            Ok((b, k)) => Ok((b, n + k)),
        },
    }
}

/// A field spec that reads nothing and gives `v`.
pub open spec fn done<B>(v: B) -> Result<(B, nat), ParseError> {
    Ok((v, 0))
}

/// Field specs for the fixed-size and varint fields of play packets.
pub open spec fn sp_var(s: Seq<u8>) -> Result<(u32, nat), ParseError> {
    spec_varint32(s)
}

pub open spec fn sp_u8(s: Seq<u8>) -> Result<(u8, nat), ParseError> {
    if s.len() < 1 {
        Err(ParseError::Incomplete)
    } else {
        Ok((s[0], 1))
    }
}

pub open spec fn sp_u32(s: Seq<u8>) -> Result<(u32, nat), ParseError> {
    match spec_be(s, 4) {
        Err(e) => Err(e),
        Ok((v, n)) => Ok((v as u32, n)),
    }
}

pub open spec fn sp_u64(s: Seq<u8>) -> Result<(u64, nat), ParseError> {
    match spec_be(s, 8) {
        Err(e) => Err(e),
        Ok((v, n)) => Ok((v as u64, n)),
    }
}

pub open spec fn sp_bool(s: Seq<u8>) -> Result<(bool, nat), ParseError> {
    match spec_boolean(s) {
        Err(e) => Err(e),
        Ok(b) => Ok((b, 1)),
    }
}

pub open spec fn sp_position(s: Seq<u8>) -> Result<(Position, nat), ParseError> {
    match spec_be(s, 8) {
        Err(e) => Err(e),
        Ok((v, n)) => Ok((Position(v as u64), n)),
    }
}

/// Reads a varint as a `u32`.
fn vu32(i: &[u8]) -> (r: Result<(&[u8], u32), ParseError>)
    ensures
        parses_to(i@, r, sp_var(i@)),
{
    varint::<u32>(i)
}


fn digging_status(v: u32) -> (r: DiggingStatus)
    requires
        v < 7,
    ensures
        r == digging_of(v),
{
    if v == 0 {
        DiggingStatus::StartedDigging
    } else if v == 1 {
        DiggingStatus::CancelledDigging
    } else if v == 2 {
        DiggingStatus::FinishedDigging
    } else if v == 3 {
        DiggingStatus::DropItemStack
    } else if v == 4 {
        DiggingStatus::DropItem
    } else if v == 5 {
        DiggingStatus::FinishUsing
    } else {
        DiggingStatus::SwapItem
    }
}

fn entity_action(v: u32) -> (r: EntityActionVariant)
    requires
        v < 9,
    ensures
        r == action_of(v),
{
    if v == 0 {
        EntityActionVariant::StartSneaking
    } else if v == 1 {
        EntityActionVariant::StopSneaking
    } else if v == 2 {
        EntityActionVariant::LeaveBed
    } else if v == 3 {
        EntityActionVariant::StartSprinting
    } else if v == 4 {
        EntityActionVariant::StopSprinting
    } else if v == 5 {
        EntityActionVariant::StartJumpingWithHorse
    } else if v == 6 {
        EntityActionVariant::StopJumpingWithHorse
    } else if v == 7 {
        EntityActionVariant::OpenHorseInventory
    } else {
        EntityActionVariant::StartFlyingWithElytra
    }
}

/// Reads an `f64` bit pattern, a big-endian `u64`.
fn f64_bits(i: &[u8]) -> (r: Result<(&[u8], u64), ParseError>)
    ensures
        parses_to(i@, r, sp_u64(i@)),
{
    let r = be_u64(i);
    proof {
        if i@.len() >= 8 {
            assert(after(i@, 8).len() == i@.len() - 8);
        }
    }
    r
}

/// Reads an `f32` bit pattern, a big-endian `u32`.
fn f32_bits(i: &[u8]) -> (r: Result<(&[u8], u32), ParseError>)
    ensures
        parses_to(i@, r, sp_u32(i@)),
{
    be_u32(i)
}

/// Reads one byte.
fn byte(i: &[u8]) -> (r: Result<(&[u8], u8), ParseError>)
    ensures
        parses_to(i@, r, sp_u8(i@)),
{
    be_u8(i)
}

/// Reads a boolean byte.
fn flag(i: &[u8]) -> (r: Result<(&[u8], bool), ParseError>)
    ensures
        parses_to(i@, r, sp_bool(i@)),
{
    boolean(i)
}

/// Reads a packed position.
fn position(i: &[u8]) -> (r: Result<(&[u8], Position), ParseError>)
    ensures
        parses_to(i@, r, sp_position(i@)),
{
    Position::parse(i)
}



/// The status numbered `v`, in declaration order.
pub open spec fn digging_of(v: u32) -> DiggingStatus {
    if v == 0 {
        DiggingStatus::StartedDigging
    } else if v == 1 {
        DiggingStatus::CancelledDigging
    } else if v == 2 {
        DiggingStatus::FinishedDigging
    } else if v == 3 {
        DiggingStatus::DropItemStack
    } else if v == 4 {
        DiggingStatus::DropItem
    } else if v == 5 {
        DiggingStatus::FinishUsing
    } else {
        DiggingStatus::SwapItem
    }
}

/// The action numbered `v`, in declaration order.
pub open spec fn action_of(v: u32) -> EntityActionVariant {
    if v == 0 {
        EntityActionVariant::StartSneaking
    } else if v == 1 {
        EntityActionVariant::StopSneaking
    } else if v == 2 {
        EntityActionVariant::LeaveBed
    } else if v == 3 {
        EntityActionVariant::StartSprinting
    } else if v == 4 {
        EntityActionVariant::StopSprinting
    } else if v == 5 {
        EntityActionVariant::StartJumpingWithHorse
    } else if v == 6 {
        EntityActionVariant::StopJumpingWithHorse
    } else if v == 7 {
        EntityActionVariant::OpenHorseInventory
    } else {
        EntityActionVariant::StartFlyingWithElytra
    }
}

/// A varint naming one of the first `n` variants.
pub open spec fn sp_index(s: Seq<u8>, n: u32) -> Result<(u32, nat), ParseError> {
    match sp_var(s) {
        Err(e) => Err(e),
        Ok((v, k)) => if v < n {
            Ok((v, k))
        } else {
            Err(ParseError::InvalidEnumValue(v))
        },
    }
}

pub open spec fn sp_digging(s: Seq<u8>) -> Result<(DiggingStatus, nat), ParseError> {
    match sp_index(s, 7) {
        Err(e) => Err(e),
        Ok((v, k)) => Ok((digging_of(v), k)),
    }
}

pub open spec fn sp_action(s: Seq<u8>) -> Result<(EntityActionVariant, nat), ParseError> {
    match sp_index(s, 9) {
        Err(e) => Err(e),
        Ok((v, k)) => Ok((action_of(v), k)),
    }
}

pub open spec fn sp_hand(s: Seq<u8>) -> Result<(Hand, nat), ParseError> {
    match spec_binary_choice(s) {
        Err(e) => Err(e),
        Ok((b, k)) => Ok((if b { Hand::Offhand } else { Hand::Mainhand }, k)),
    }
}

pub open spec fn sp_direction(s: Seq<u8>) -> Result<(Direction, nat), ParseError> {
    if s.len() < 1 {
        Err(ParseError::Incomplete)
    } else {
        match direction_of(s[0]) {
            Some(d) => Ok((d, 1)),
            None => Err(ParseError::InvalidEnumValue(s[0] as u32)),
        }
    }
}

/// An interaction: a varint kind, then a hand (0), nothing (1), or a target
/// point as three `f32` bit patterns and a hand (2).
pub open spec fn sp_interaction(s: Seq<u8>) -> Result<(EntityInteraction, nat), ParseError> {
    then(sp_index(s, 3), s, |kind: u32, s1: Seq<u8>|
        if kind == 0 {
            then(sp_hand(s1), s1, |h: Hand, s2: Seq<u8>| done(EntityInteraction::Interact(h)))
        } else if kind == 1 {
            done(EntityInteraction::Attack)
        } else {
            then(sp_u32(s1), s1, |x: u32, s2: Seq<u8>|
                then(sp_u32(s2), s2, |y: u32, s3: Seq<u8>|
                    then(sp_u32(s3), s3, |z: u32, s4: Seq<u8>|
                        then(sp_hand(s4), s4, |h: Hand, s5: Seq<u8>|
                            done(EntityInteraction::InteractAt(x, y, z, h))))))
        })
}

fn index(i: &[u8], n: u32) -> (r: Result<(&[u8], u32), ParseError>)
    ensures
        parses_to(i@, r, sp_index(i@, n)),
{
    let (rest, v) = vu32(i)?;
    if v >= n {
        return Err(ParseError::InvalidEnumValue(v));
    }
    Ok((rest, v))
}

fn digging(i: &[u8]) -> (r: Result<(&[u8], DiggingStatus), ParseError>)
    ensures
        parses_to(i@, r, sp_digging(i@)),
{
    let (rest, v) = index(i, 7)?;
    Ok((rest, digging_status(v)))
}

fn action(i: &[u8]) -> (r: Result<(&[u8], EntityActionVariant), ParseError>)
    ensures
        parses_to(i@, r, sp_action(i@)),
{
    let (rest, v) = index(i, 9)?;
    Ok((rest, entity_action(v)))
}

fn hand(i: &[u8]) -> (r: Result<(&[u8], Hand), ParseError>)
    ensures
        parses_to(i@, r, sp_hand(i@)),
{
    Hand::parse(i)
}

fn face(i: &[u8]) -> (r: Result<(&[u8], Direction), ParseError>)
    ensures
        parses_to(i@, r, sp_direction(i@)),
{
    let r = Direction::parse(i);
    proof {
        if i@.len() >= 1 {
            assert(after(i@, 1).len() == i@.len() - 1);
        }
    }
    r
}

fn interaction(i: &[u8]) -> (r: Result<(&[u8], EntityInteraction), ParseError>)
    ensures
        parses_to(i@, r, sp_interaction(i@)),
{
    let (i1, kind) = index(i, 3)?;
    if kind == 0 {
        let (i2, h) = hand(i1)?;
        proof {
            lemma_suffix_trans(i@, i1@, i2@);
        }
        Ok((i2, EntityInteraction::Interact(h)))
    } else if kind == 1 {
        Ok((i1, EntityInteraction::Attack))
    } else {
        let (i2, x) = f32_bits(i1)?;
        let (i3, y) = f32_bits(i2)?;
        let (i4, z) = f32_bits(i3)?;
        let (i5, h) = hand(i4)?;
        proof {
            lemma_suffix_trans(i3@, i4@, i5@);
            lemma_suffix_trans(i2@, i3@, i5@);
            lemma_suffix_trans(i1@, i2@, i5@);
            lemma_suffix_trans(i@, i1@, i5@);
        }
        Ok((i5, EntityInteraction::InteractAt(x, y, z, h)))
    }
}

/// Packet 0x00: TeleportConfirm.
pub open spec fn sp_teleport_confirm(s: Seq<u8>) -> Result<(PlayPacket, nat), ParseError> {
    then(sp_var(s), s, |teleport_id: u32, s1: Seq<u8>| done(PlayPacket::TeleportConfirm { teleport_id }))
}

fn teleport_confirm(i: &[u8]) -> (r: Result<(&[u8], PlayPacket), ParseError>)
    ensures
        r matches Ok((_, p)) ==> p.id() == 0x00,
        parses_to(i@, r, sp_teleport_confirm(i@)),
{
    let (i1, teleport_id) = vu32(i)?;
    Ok((i1, PlayPacket::TeleportConfirm { teleport_id }))
}

/// Packet 0x01: QueryBlockNbt.
pub open spec fn sp_query_block_nbt(s: Seq<u8>) -> Result<(PlayPacket, nat), ParseError> {
    then(sp_var(s), s, |transaction_id: u32, s1: Seq<u8>| then(sp_position(s1), s1, |location: Position, s2: Seq<u8>| done(PlayPacket::QueryBlockNbt { transaction_id, location })))
}

fn query_block_nbt(i: &[u8]) -> (r: Result<(&[u8], PlayPacket), ParseError>)
    ensures
        r matches Ok((_, p)) ==> p.id() == 0x01,
        parses_to(i@, r, sp_query_block_nbt(i@)),
{
    let (i1, transaction_id) = vu32(i)?;
    let (i2, location) = position(i1)?;
    proof {
        lemma_suffix_trans(i@, i1@, i2@);
    }
    Ok((i2, PlayPacket::QueryBlockNbt { transaction_id, location }))
}

/// Packet 0x02: SetDifficulty.
pub open spec fn sp_set_difficulty(s: Seq<u8>) -> Result<(PlayPacket, nat), ParseError> {
    then(sp_u8(s), s, |new_difficulty: u8, s1: Seq<u8>| done(PlayPacket::SetDifficulty { new_difficulty }))
}

fn set_difficulty(i: &[u8]) -> (r: Result<(&[u8], PlayPacket), ParseError>)
    ensures
        r matches Ok((_, p)) ==> p.id() == 0x02,
        parses_to(i@, r, sp_set_difficulty(i@)),
{
    let (i1, new_difficulty) = byte(i)?;
    Ok((i1, PlayPacket::SetDifficulty { new_difficulty }))
}

/// Packet 0x04: ClientStatus.
pub open spec fn sp_client_status(s: Seq<u8>) -> Result<(PlayPacket, nat), ParseError> {
    then(sp_var(s), s, |action_id: u32, s1: Seq<u8>| done(PlayPacket::ClientStatus { action_id }))
}

fn client_status(i: &[u8]) -> (r: Result<(&[u8], PlayPacket), ParseError>)
    ensures
        r matches Ok((_, p)) ==> p.id() == 0x04,
        parses_to(i@, r, sp_client_status(i@)),
{
    let (i1, action_id) = vu32(i)?;
    Ok((i1, PlayPacket::ClientStatus { action_id }))
}

/// Packet 0x07: ClickWindowButton.
pub open spec fn sp_click_window_button(s: Seq<u8>) -> Result<(PlayPacket, nat), ParseError> {
    then(sp_u8(s), s, |window_id: u8, s1: Seq<u8>| then(sp_u8(s1), s1, |button_id: u8, s2: Seq<u8>| done(PlayPacket::ClickWindowButton { window_id, button_id })))
}

fn click_window_button(i: &[u8]) -> (r: Result<(&[u8], PlayPacket), ParseError>)
    ensures
        r matches Ok((_, p)) ==> p.id() == 0x07,
        parses_to(i@, r, sp_click_window_button(i@)),
{
    let (i1, window_id) = byte(i)?;
    let (i2, button_id) = byte(i1)?;
    proof {
        lemma_suffix_trans(i@, i1@, i2@);
    }
    Ok((i2, PlayPacket::ClickWindowButton { window_id, button_id }))
}

/// Packet 0x09: CloseWindow.
pub open spec fn sp_close_window(s: Seq<u8>) -> Result<(PlayPacket, nat), ParseError> {
    then(sp_u8(s), s, |window_id: u8, s1: Seq<u8>| done(PlayPacket::CloseWindow { window_id }))
}

fn close_window(i: &[u8]) -> (r: Result<(&[u8], PlayPacket), ParseError>)
    ensures
        r matches Ok((_, p)) ==> p.id() == 0x09,
        parses_to(i@, r, sp_close_window(i@)),
{
    let (i1, window_id) = byte(i)?;
    Ok((i1, PlayPacket::CloseWindow { window_id }))
}

/// Packet 0x0c: QueryEntityNbt.
pub open spec fn sp_query_entity_nbt(s: Seq<u8>) -> Result<(PlayPacket, nat), ParseError> {
    then(sp_var(s), s, |transaction_id: u32, s1: Seq<u8>| then(sp_var(s1), s1, |entity_id: u32, s2: Seq<u8>| done(PlayPacket::QueryEntityNbt { transaction_id, entity_id })))
}

fn query_entity_nbt(i: &[u8]) -> (r: Result<(&[u8], PlayPacket), ParseError>)
    ensures
        r matches Ok((_, p)) ==> p.id() == 0x0c,
        parses_to(i@, r, sp_query_entity_nbt(i@)),
{
    let (i1, transaction_id) = vu32(i)?;
    let (i2, entity_id) = vu32(i1)?;
    proof {
        lemma_suffix_trans(i@, i1@, i2@);
    }
    Ok((i2, PlayPacket::QueryEntityNbt { transaction_id, entity_id }))
}

/// Packet 0x0d: InteractEntity.
pub open spec fn sp_interact_entity(s: Seq<u8>) -> Result<(PlayPacket, nat), ParseError> {
    then(sp_var(s), s, |entity_id: u32, s1: Seq<u8>| then(sp_interaction(s1), s1, |interaction: EntityInteraction, s2: Seq<u8>| then(sp_bool(s2), s2, |is_sneaking: bool, s3: Seq<u8>| done(PlayPacket::InteractEntity { entity_id, interaction, is_sneaking }))))
}

fn interact_entity(i: &[u8]) -> (r: Result<(&[u8], PlayPacket), ParseError>)
    ensures
        r matches Ok((_, p)) ==> p.id() == 0x0d,
        parses_to(i@, r, sp_interact_entity(i@)),
{
    let (i1, entity_id) = vu32(i)?;
    let (i2, interaction) = interaction(i1)?;
    let (i3, is_sneaking) = flag(i2)?;
    proof {
        lemma_suffix_trans(i1@, i2@, i3@);
        lemma_suffix_trans(i@, i1@, i3@);
    }
    Ok((i3, PlayPacket::InteractEntity { entity_id, interaction, is_sneaking }))
}

/// Packet 0x0e: GenerateStructure.
pub open spec fn sp_generate_structure(s: Seq<u8>) -> Result<(PlayPacket, nat), ParseError> {
    then(sp_position(s), s, |location: Position, s1: Seq<u8>| then(sp_var(s1), s1, |levels: u32, s2: Seq<u8>| then(sp_bool(s2), s2, |keep_jigsaws: bool, s3: Seq<u8>| done(PlayPacket::GenerateStructure { location, levels, keep_jigsaws }))))
}

fn generate_structure(i: &[u8]) -> (r: Result<(&[u8], PlayPacket), ParseError>)
    ensures
        r matches Ok((_, p)) ==> p.id() == 0x0e,
        parses_to(i@, r, sp_generate_structure(i@)),
{
    let (i1, location) = position(i)?;
    let (i2, levels) = vu32(i1)?;
    let (i3, keep_jigsaws) = flag(i2)?;
    proof {
        lemma_suffix_trans(i1@, i2@, i3@);
        lemma_suffix_trans(i@, i1@, i3@);
    }
    Ok((i3, PlayPacket::GenerateStructure { location, levels, keep_jigsaws }))
}

/// Packet 0x0f: KeepAlive.
pub open spec fn sp_keep_alive(s: Seq<u8>) -> Result<(PlayPacket, nat), ParseError> {
    then(sp_u64(s), s, |v: u64, s1: Seq<u8>| done(PlayPacket::KeepAlive(v)))
}

fn keep_alive(i: &[u8]) -> (r: Result<(&[u8], PlayPacket), ParseError>)
    ensures
        r matches Ok((_, p)) ==> p.id() == 0x0f,
        parses_to(i@, r, sp_keep_alive(i@)),
{
    let (i1, v) = f64_bits(i)?;
    Ok((i1, PlayPacket::KeepAlive(v)))
}

/// Packet 0x10: LockDifficulty.
pub open spec fn sp_lock_difficulty(s: Seq<u8>) -> Result<(PlayPacket, nat), ParseError> {
    then(sp_bool(s), s, |locked: bool, s1: Seq<u8>| done(PlayPacket::LockDifficulty { locked }))
}

fn lock_difficulty(i: &[u8]) -> (r: Result<(&[u8], PlayPacket), ParseError>)
    ensures
        r matches Ok((_, p)) ==> p.id() == 0x10,
        parses_to(i@, r, sp_lock_difficulty(i@)),
{
    let (i1, locked) = flag(i)?;
    Ok((i1, PlayPacket::LockDifficulty { locked }))
}

/// Packet 0x11: PlayerPosition.
pub open spec fn sp_player_position(s: Seq<u8>) -> Result<(PlayPacket, nat), ParseError> {
    then(sp_u64(s), s, |x: u64, s1: Seq<u8>| then(sp_u64(s1), s1, |y: u64, s2: Seq<u8>| then(sp_u64(s2), s2, |z: u64, s3: Seq<u8>| then(sp_bool(s3), s3, |on_ground: bool, s4: Seq<u8>| done(PlayPacket::PlayerPosition { x, y, z, on_ground })))))
}

fn player_position(i: &[u8]) -> (r: Result<(&[u8], PlayPacket), ParseError>)
    ensures
        r matches Ok((_, p)) ==> p.id() == 0x11,
        parses_to(i@, r, sp_player_position(i@)),
{
    let (i1, x) = f64_bits(i)?;
    let (i2, y) = f64_bits(i1)?;
    let (i3, z) = f64_bits(i2)?;
    let (i4, on_ground) = flag(i3)?;
    proof {
        lemma_suffix_trans(i2@, i3@, i4@);
        lemma_suffix_trans(i1@, i2@, i4@);
        lemma_suffix_trans(i@, i1@, i4@);
    }
    Ok((i4, PlayPacket::PlayerPosition { x, y, z, on_ground }))
}

/// Packet 0x12: PlayerPositionAndRotation.
pub open spec fn sp_player_position_and_rotation(s: Seq<u8>) -> Result<(PlayPacket, nat), ParseError> {
    then(sp_u64(s), s, |x: u64, s1: Seq<u8>| then(sp_u64(s1), s1, |y: u64, s2: Seq<u8>| then(sp_u64(s2), s2, |z: u64, s3: Seq<u8>| then(sp_u32(s3), s3, |yaw: u32, s4: Seq<u8>| then(sp_u32(s4), s4, |pitch: u32, s5: Seq<u8>| then(sp_bool(s5), s5, |on_ground: bool, s6: Seq<u8>| done(PlayPacket::PlayerPositionAndRotation { x, y, z, yaw, pitch, on_ground })))))))
}

fn player_position_and_rotation(i: &[u8]) -> (r: Result<(&[u8], PlayPacket), ParseError>)
    ensures
        r matches Ok((_, p)) ==> p.id() == 0x12,
        parses_to(i@, r, sp_player_position_and_rotation(i@)),
{
    let (i1, x) = f64_bits(i)?;
    let (i2, y) = f64_bits(i1)?;
    let (i3, z) = f64_bits(i2)?;
    let (i4, yaw) = f32_bits(i3)?;
    let (i5, pitch) = f32_bits(i4)?;
    let (i6, on_ground) = flag(i5)?;
    proof {
        lemma_suffix_trans(i4@, i5@, i6@);
        lemma_suffix_trans(i3@, i4@, i6@);
        lemma_suffix_trans(i2@, i3@, i6@);
        lemma_suffix_trans(i1@, i2@, i6@);
        lemma_suffix_trans(i@, i1@, i6@);
    }
    Ok((i6, PlayPacket::PlayerPositionAndRotation { x, y, z, yaw, pitch, on_ground }))
}

/// Packet 0x13: PlayerRotation.
pub open spec fn sp_player_rotation(s: Seq<u8>) -> Result<(PlayPacket, nat), ParseError> {
    then(sp_u32(s), s, |yaw: u32, s1: Seq<u8>| then(sp_u32(s1), s1, |pitch: u32, s2: Seq<u8>| then(sp_bool(s2), s2, |on_ground: bool, s3: Seq<u8>| done(PlayPacket::PlayerRotation { yaw, pitch, on_ground }))))
}

fn player_rotation(i: &[u8]) -> (r: Result<(&[u8], PlayPacket), ParseError>)
    ensures
        r matches Ok((_, p)) ==> p.id() == 0x13,
        parses_to(i@, r, sp_player_rotation(i@)),
{
    let (i1, yaw) = f32_bits(i)?;
    let (i2, pitch) = f32_bits(i1)?;
    let (i3, on_ground) = flag(i2)?;
    proof {
        lemma_suffix_trans(i1@, i2@, i3@);
        lemma_suffix_trans(i@, i1@, i3@);
    }
    Ok((i3, PlayPacket::PlayerRotation { yaw, pitch, on_ground }))
}

/// Packet 0x14: PlayerMovement.
pub open spec fn sp_player_movement(s: Seq<u8>) -> Result<(PlayPacket, nat), ParseError> {
    then(sp_bool(s), s, |on_ground: bool, s1: Seq<u8>| done(PlayPacket::PlayerMovement { on_ground }))
}

fn player_movement(i: &[u8]) -> (r: Result<(&[u8], PlayPacket), ParseError>)
    ensures
        r matches Ok((_, p)) ==> p.id() == 0x14,
        parses_to(i@, r, sp_player_movement(i@)),
{
    let (i1, on_ground) = flag(i)?;
    Ok((i1, PlayPacket::PlayerMovement { on_ground }))
}

/// Packet 0x15: VehicleMove.
pub open spec fn sp_vehicle_move(s: Seq<u8>) -> Result<(PlayPacket, nat), ParseError> {
    then(sp_u64(s), s, |x: u64, s1: Seq<u8>| then(sp_u64(s1), s1, |y: u64, s2: Seq<u8>| then(sp_u64(s2), s2, |z: u64, s3: Seq<u8>| then(sp_u32(s3), s3, |yaw: u32, s4: Seq<u8>| then(sp_u32(s4), s4, |pitch: u32, s5: Seq<u8>| done(PlayPacket::VehicleMove { x, y, z, yaw, pitch }))))))
}

fn vehicle_move(i: &[u8]) -> (r: Result<(&[u8], PlayPacket), ParseError>)
    ensures
        r matches Ok((_, p)) ==> p.id() == 0x15,
        parses_to(i@, r, sp_vehicle_move(i@)),
{
    let (i1, x) = f64_bits(i)?;
    let (i2, y) = f64_bits(i1)?;
    let (i3, z) = f64_bits(i2)?;
    let (i4, yaw) = f32_bits(i3)?;
    let (i5, pitch) = f32_bits(i4)?;
    proof {
        lemma_suffix_trans(i3@, i4@, i5@);
        lemma_suffix_trans(i2@, i3@, i5@);
        lemma_suffix_trans(i1@, i2@, i5@);
        lemma_suffix_trans(i@, i1@, i5@);
    }
    Ok((i5, PlayPacket::VehicleMove { x, y, z, yaw, pitch }))
}

/// Packet 0x16: SteerBoat.
pub open spec fn sp_steer_boat(s: Seq<u8>) -> Result<(PlayPacket, nat), ParseError> {
    then(sp_bool(s), s, |left_paddle_turning: bool, s1: Seq<u8>| then(sp_bool(s1), s1, |right_paddle_turning: bool, s2: Seq<u8>| done(PlayPacket::SteerBoat { left_paddle_turning, right_paddle_turning })))
}

fn steer_boat(i: &[u8]) -> (r: Result<(&[u8], PlayPacket), ParseError>)
    ensures
        r matches Ok((_, p)) ==> p.id() == 0x16,
        parses_to(i@, r, sp_steer_boat(i@)),
{
    let (i1, left_paddle_turning) = flag(i)?;
    let (i2, right_paddle_turning) = flag(i1)?;
    proof {
        lemma_suffix_trans(i@, i1@, i2@);
    }
    Ok((i2, PlayPacket::SteerBoat { left_paddle_turning, right_paddle_turning }))
}

/// Packet 0x17: PickItem.
pub open spec fn sp_pick_item(s: Seq<u8>) -> Result<(PlayPacket, nat), ParseError> {
    then(sp_var(s), s, |slot_id: u32, s1: Seq<u8>| done(PlayPacket::PickItem { slot_id }))
}

fn pick_item(i: &[u8]) -> (r: Result<(&[u8], PlayPacket), ParseError>)
    ensures
        r matches Ok((_, p)) ==> p.id() == 0x17,
        parses_to(i@, r, sp_pick_item(i@)),
{
    let (i1, slot_id) = vu32(i)?;
    Ok((i1, PlayPacket::PickItem { slot_id }))
}

/// Packet 0x19: PlayerAbilities.
pub open spec fn sp_player_abilities(s: Seq<u8>) -> Result<(PlayPacket, nat), ParseError> {
    then(sp_u8(s), s, |flags: u8, s1: Seq<u8>| done(PlayPacket::PlayerAbilities { flags }))
}

fn player_abilities(i: &[u8]) -> (r: Result<(&[u8], PlayPacket), ParseError>)
    ensures
        r matches Ok((_, p)) ==> p.id() == 0x19,
        parses_to(i@, r, sp_player_abilities(i@)),
{
    let (i1, flags) = byte(i)?;
    Ok((i1, PlayPacket::PlayerAbilities { flags }))
}

/// Packet 0x1a: PlayerDigging.
pub open spec fn sp_player_digging(s: Seq<u8>) -> Result<(PlayPacket, nat), ParseError> {
    then(sp_digging(s), s, |status: DiggingStatus, s1: Seq<u8>| then(sp_position(s1), s1, |location: Position, s2: Seq<u8>| then(sp_direction(s2), s2, |face: Direction, s3: Seq<u8>| done(PlayPacket::PlayerDigging { status, location, face }))))
}

fn player_digging(i: &[u8]) -> (r: Result<(&[u8], PlayPacket), ParseError>)
    ensures
        r matches Ok((_, p)) ==> p.id() == 0x1a,
        parses_to(i@, r, sp_player_digging(i@)),
{
    let (i1, status) = digging(i)?;
    let (i2, location) = position(i1)?;
    let (i3, face) = face(i2)?;
    proof {
        lemma_suffix_trans(i1@, i2@, i3@);
        lemma_suffix_trans(i@, i1@, i3@);
    }
    Ok((i3, PlayPacket::PlayerDigging { status, location, face }))
}

/// Packet 0x1b: EntityAction.
pub open spec fn sp_entity_action_packet(s: Seq<u8>) -> Result<(PlayPacket, nat), ParseError> {
    then(sp_var(s), s, |entity_id: u32, s1: Seq<u8>| then(sp_action(s1), s1, |action: EntityActionVariant, s2: Seq<u8>| then(sp_var(s2), s2, |jump_boost: u32, s3: Seq<u8>| done(PlayPacket::EntityAction { entity_id, action, jump_boost }))))
}

fn entity_action_packet(i: &[u8]) -> (r: Result<(&[u8], PlayPacket), ParseError>)
    ensures
        r matches Ok((_, p)) ==> p.id() == 0x1b,
        parses_to(i@, r, sp_entity_action_packet(i@)),
{
    let (i1, entity_id) = vu32(i)?;
    let (i2, action) = action(i1)?;
    let (i3, jump_boost) = vu32(i2)?;
    proof {
        lemma_suffix_trans(i1@, i2@, i3@);
        lemma_suffix_trans(i@, i1@, i3@);
    }
    Ok((i3, PlayPacket::EntityAction { entity_id, action, jump_boost }))
}

/// Packet 0x1c: SteerVehicle.
pub open spec fn sp_steer_vehicle(s: Seq<u8>) -> Result<(PlayPacket, nat), ParseError> {
    then(sp_u32(s), s, |sideways: u32, s1: Seq<u8>| then(sp_u32(s1), s1, |forward: u32, s2: Seq<u8>| then(sp_u8(s2), s2, |flags: u8, s3: Seq<u8>| done(PlayPacket::SteerVehicle { sideways, forward, flags }))))
}

fn steer_vehicle(i: &[u8]) -> (r: Result<(&[u8], PlayPacket), ParseError>)
    ensures
        r matches Ok((_, p)) ==> p.id() == 0x1c,
        parses_to(i@, r, sp_steer_vehicle(i@)),
{
    let (i1, sideways) = f32_bits(i)?;
    let (i2, forward) = f32_bits(i1)?;
    let (i3, flags) = byte(i2)?;
    proof {
        lemma_suffix_trans(i1@, i2@, i3@);
        lemma_suffix_trans(i@, i1@, i3@);
    }
    Ok((i3, PlayPacket::SteerVehicle { sideways, forward, flags }))
}

/// Packet 0x1d: Pong.
pub open spec fn sp_pong(s: Seq<u8>) -> Result<(PlayPacket, nat), ParseError> {
    then(sp_u32(s), s, |v: u32, s1: Seq<u8>| done(PlayPacket::Pong(v)))
}

fn pong(i: &[u8]) -> (r: Result<(&[u8], PlayPacket), ParseError>)
    ensures
        r matches Ok((_, p)) ==> p.id() == 0x1d,
        parses_to(i@, r, sp_pong(i@)),
{
    let (i1, v) = f32_bits(i)?;
    Ok((i1, PlayPacket::Pong(v)))
}

/// Packet 0x1e: SetRecipeBookState.
pub open spec fn sp_set_recipe_book_state(s: Seq<u8>) -> Result<(PlayPacket, nat), ParseError> {
    then(sp_var(s), s, |book_id: u32, s1: Seq<u8>| then(sp_bool(s1), s1, |book_open: bool, s2: Seq<u8>| then(sp_bool(s2), s2, |filter_active: bool, s3: Seq<u8>| done(PlayPacket::SetRecipeBookState { book_id, book_open, filter_active }))))
}

fn set_recipe_book_state(i: &[u8]) -> (r: Result<(&[u8], PlayPacket), ParseError>)
    ensures
        r matches Ok((_, p)) ==> p.id() == 0x1e,
        parses_to(i@, r, sp_set_recipe_book_state(i@)),
{
    let (i1, book_id) = vu32(i)?;
    let (i2, book_open) = flag(i1)?;
    let (i3, filter_active) = flag(i2)?;
    proof {
        lemma_suffix_trans(i1@, i2@, i3@);
        lemma_suffix_trans(i@, i1@, i3@);
    }
    Ok((i3, PlayPacket::SetRecipeBookState { book_id, book_open, filter_active }))
}

/// Whether packet `id` has only fixed-layout fields, whose values [`spec_play_fields`] gives.
pub open spec fn fixed_layout(id: u32) -> bool {
    id == 0x00 || id == 0x01 || id == 0x02 || id == 0x04 || id == 0x07 || id == 0x09 || id == 0x0c || id == 0x0d || id == 0x0e || id == 0x0f || id == 0x10 || id == 0x11 || id == 0x12 || id == 0x13 || id == 0x14 || id == 0x15 || id == 0x16 || id == 0x17 || id == 0x19 || id == 0x1a || id == 0x1b || id == 0x1c || id == 0x1d || id == 0x1e
}

/// The fields of a fixed-layout play packet.
pub open spec fn spec_play_fields(id: u32, s: Seq<u8>) -> Result<(PlayPacket, nat), ParseError> {
    if id == 0x00 {
        sp_teleport_confirm(s)
    } else if id == 0x01 {
        sp_query_block_nbt(s)
    } else if id == 0x02 {
        sp_set_difficulty(s)
    } else if id == 0x04 {
        sp_client_status(s)
    } else if id == 0x07 {
        sp_click_window_button(s)
    } else if id == 0x09 {
        sp_close_window(s)
    } else if id == 0x0c {
        sp_query_entity_nbt(s)
    } else if id == 0x0d {
        sp_interact_entity(s)
    } else if id == 0x0e {
        sp_generate_structure(s)
    } else if id == 0x0f {
        sp_keep_alive(s)
    } else if id == 0x10 {
        sp_lock_difficulty(s)
    } else if id == 0x11 {
        sp_player_position(s)
    } else if id == 0x12 {
        sp_player_position_and_rotation(s)
    } else if id == 0x13 {
        sp_player_rotation(s)
    } else if id == 0x14 {
        sp_player_movement(s)
    } else if id == 0x15 {
        sp_vehicle_move(s)
    } else if id == 0x16 {
        sp_steer_boat(s)
    } else if id == 0x17 {
        sp_pick_item(s)
    } else if id == 0x19 {
        sp_player_abilities(s)
    } else if id == 0x1a {
        sp_player_digging(s)
    } else if id == 0x1b {
        sp_entity_action_packet(s)
    } else if id == 0x1c {
        sp_steer_vehicle(s)
    } else if id == 0x1d {
        sp_pong(s)
    } else if id == 0x1e {
        sp_set_recipe_book_state(s)
    } else {
        Err(ParseError::UnknownPacketId(id))
    }
}

/// `r`, the result of a packet reader run on `input`, agrees with
/// `expected` under `model`: the same error, or a packet whose model is the
/// expected one, with as many bytes consumed.
pub open spec fn model_parses_to<M>(
    input: Seq<u8>,
    r: Result<(&[u8], PlayPacket), ParseError>,
    expected: Result<(M, nat), ParseError>,
    model: spec_fn(PlayPacket) -> M,
) -> bool {
    match r {
        Ok((rest, p)) => is_suffix(input, rest@) && expected == Ok::<(M, nat), ParseError>(
            (model(p), consumed(input, rest@)),
        ),
        Err(e) => expected == Err::<(M, nat), ParseError>(e),
    }
}

/// A string of at most `max` bytes, as its bytes.
pub open spec fn sp_str(s: Seq<u8>, max: nat) -> Result<(Seq<u8>, nat), ParseError> {
    spec_var_str(s, max)
}

/// An identifier string, as its namespace and path bytes.
pub open spec fn sp_identifier(s: Seq<u8>) -> Result<((Seq<u8>, Seq<u8>), nat), ParseError> {
    match spec_var_str(s, DEFAULT_MAX_STRING_LENGTH as nat) {
        Err(e) => Err(e),
        Ok((b, n)) => match spec_identifier(decode_utf8(b)) {
            Ok(np) => Ok((np, n)),
            Err(_) => Err(ParseError::InvalidIdentifier),
        },
    }
}

/// An identifier's namespace and path bytes.
pub open spec fn id_bytes(id: Identifier) -> (Seq<u8>, Seq<u8>) {
    (encode_utf8(id.namespace@), encode_utf8(id.path@))
}

/// A string field's bytes.
pub open spec fn text_bytes(t: String) -> Seq<u8> {
    encode_utf8(t@)
}

/// Packet 0x03: the chat message's bytes.
pub open spec fn sp_chat_message(s: Seq<u8>) -> Result<(Seq<u8>, nat), ParseError> {
    sp_str(s, 256)
}

pub open spec fn chat_message_model(p: PlayPacket) -> Seq<u8> {
    match p {
        PlayPacket::ChatMessage { message } => text_bytes(message),
        _ => Seq::empty(),
    }
}

/// Packet 0x05: locale, view distance, chat mode, colours, skin parts, arm,
/// text filtering.
pub type SettingsModel = (Seq<u8>, u8, u32, bool, u8, Arm, bool);

pub open spec fn sp_arm(s: Seq<u8>) -> Result<(Arm, nat), ParseError> {
    match spec_binary_choice(s) {
        Err(e) => Err(e),
        Ok((b, k)) => Ok((if b { Arm::Right } else { Arm::Left }, k)),
    }
}

pub open spec fn sp_client_settings(s: Seq<u8>) -> Result<(SettingsModel, nat), ParseError> {
    then(sp_str(s, 16), s, |locale: Seq<u8>, s1: Seq<u8>|
        then(sp_u8(s1), s1, |view_distance: u8, s2: Seq<u8>|
            then(sp_var(s2), s2, |chat_mode: u32, s3: Seq<u8>|
                then(sp_bool(s3), s3, |colors: bool, s4: Seq<u8>|
                    then(sp_u8(s4), s4, |skin: u8, s5: Seq<u8>|
                        then(sp_arm(s5), s5, |arm: Arm, s6: Seq<u8>|
                            then(sp_bool(s6), s6, |filter: bool, s7: Seq<u8>|
                                done((locale, view_distance, chat_mode, colors, skin, arm, filter)))))))))
}

pub open spec fn client_settings_model(p: PlayPacket) -> SettingsModel {
    match p {
        PlayPacket::ClientSettings {
            locale,
            view_distance,
            chat_mode,
            chat_colors,
            displayed_skin_parts,
            main_arm,
            enable_text_filtering,
        } => (
            text_bytes(locale),
            view_distance,
            chat_mode,
            chat_colors,
            displayed_skin_parts,
            main_arm,
            enable_text_filtering,
        ),
        _ => (Seq::empty(), 0, 0, false, 0, Arm::Left, false),
    }
}

/// Packet 0x06: transaction id and text.
pub open spec fn sp_tab_complete(s: Seq<u8>) -> Result<((u32, Seq<u8>), nat), ParseError> {
    then(sp_var(s), s, |t: u32, s1: Seq<u8>|
        then(sp_str(s1, 32500), s1, |text: Seq<u8>, s2: Seq<u8>| done((t, text))))
}

pub open spec fn tab_complete_model(p: PlayPacket) -> (u32, Seq<u8>) {
    match p {
        PlayPacket::TabComplete { transaction_id, text } => (transaction_id, text_bytes(text)),
        _ => (0, Seq::empty()),
    }
}

/// Packet 0x0a: channel identifier, then every remaining byte.
pub open spec fn sp_plugin_message(s: Seq<u8>) -> Result<(((Seq<u8>, Seq<u8>), Seq<u8>), nat), ParseError> {
    then(sp_identifier(s), s, |c: (Seq<u8>, Seq<u8>), s1: Seq<u8>| Ok(((c, s1), s1.len())))
}

pub open spec fn plugin_message_model(p: PlayPacket) -> ((Seq<u8>, Seq<u8>), Seq<u8>) {
    match p {
        PlayPacket::PluginMessage { channel, data } => (id_bytes(channel), data@),
        _ => ((Seq::empty(), Seq::empty()), Seq::empty()),
    }
}

/// Packet 0x18: window id, recipe identifier, make-all flag.
pub open spec fn sp_craft_recipe_request(s: Seq<u8>) -> Result<((u8, (Seq<u8>, Seq<u8>), bool), nat), ParseError> {
    then(sp_u8(s), s, |w: u8, s1: Seq<u8>|
        then(sp_identifier(s1), s1, |rid: (Seq<u8>, Seq<u8>), s2: Seq<u8>|
            then(sp_bool(s2), s2, |all: bool, s3: Seq<u8>| done((w, rid, all)))))
}

pub open spec fn craft_recipe_request_model(p: PlayPacket) -> (u8, (Seq<u8>, Seq<u8>), bool) {
    match p {
        PlayPacket::CraftRecipeRequest { window_id, recipe, make_all } => (window_id, id_bytes(recipe), make_all),
        _ => (0, (Seq::empty(), Seq::empty()), false),
    }
}

/// Packet 0x1f: recipe identifier.
pub open spec fn sp_set_displayed_recipe(s: Seq<u8>) -> Result<((Seq<u8>, Seq<u8>), nat), ParseError> {
    sp_identifier(s)
}

pub open spec fn set_displayed_recipe_model(p: PlayPacket) -> (Seq<u8>, Seq<u8>) {
    match p {
        PlayPacket::SetDisplayedRecipe { recipe_id } => id_bytes(recipe_id),
        _ => (Seq::empty(), Seq::empty()),
    }
}

fn text(i: &[u8], max: u32) -> (r: Result<(&[u8], String), ParseError>)
    ensures
        match r {
            Ok((rest, t)) => is_suffix(i@, rest@) && sp_str(i@, max as nat) == Ok::<
                (Seq<u8>, nat),
                ParseError,
            >((text_bytes(t), consumed(i@, rest@))),
            Err(e) => sp_str(i@, max as nat) == Err::<(Seq<u8>, nat), ParseError>(e),
        },
{
    let (rest, t) = var_str_with_max_length(i, max)?;
    Ok((rest, t.to_owned()))
}

fn identifier(i: &[u8]) -> (r: Result<(&[u8], Identifier), ParseError>)
    ensures
        match r {
            Ok((rest, id)) => is_suffix(i@, rest@) && sp_identifier(i@) == Ok::<
                ((Seq<u8>, Seq<u8>), nat),
                ParseError,
            >((id_bytes(id), consumed(i@, rest@))),
            Err(e) => sp_identifier(i@) == Err::<((Seq<u8>, Seq<u8>), nat), ParseError>(e),
        },
{
    Identifier::parse(i)
}

fn arm(i: &[u8]) -> (r: Result<(&[u8], Arm), ParseError>)
    ensures
        parses_to(i@, r, sp_arm(i@)),
{
    Arm::parse(i)
}

fn chat_message(i: &[u8]) -> (r: Result<(&[u8], PlayPacket), ParseError>)
    ensures
        r matches Ok((_, p)) ==> p.id() == 0x03,
        model_parses_to(i@, r, sp_chat_message(i@), |p: PlayPacket| chat_message_model(p)),
{
    let (i1, message) = text(i, 256)?;
    Ok((i1, PlayPacket::ChatMessage { message }))
}

fn client_settings(i: &[u8]) -> (r: Result<(&[u8], PlayPacket), ParseError>)
    ensures
        r matches Ok((_, p)) ==> p.id() == 0x05,
        model_parses_to(i@, r, sp_client_settings(i@), |p: PlayPacket| client_settings_model(p)),
{
    let (i1, locale) = text(i, 16)?;
    let (i2, view_distance) = byte(i1)?;
    let (i3, chat_mode) = vu32(i2)?;
    let (i4, chat_colors) = flag(i3)?;
    let (i5, displayed_skin_parts) = byte(i4)?;
    let (i6, main_arm) = arm(i5)?;
    let (i7, enable_text_filtering) = flag(i6)?;
    proof {
        lemma_suffix_trans(i5@, i6@, i7@);
        lemma_suffix_trans(i4@, i5@, i7@);
        lemma_suffix_trans(i3@, i4@, i7@);
        lemma_suffix_trans(i2@, i3@, i7@);
        lemma_suffix_trans(i1@, i2@, i7@);
        lemma_suffix_trans(i@, i1@, i7@);
    }
    Ok(
        (
            i7,
            PlayPacket::ClientSettings {
                locale,
                view_distance,
                chat_mode,
                chat_colors,
                displayed_skin_parts,
                main_arm,
                enable_text_filtering,
            },
        ),
    )
}

fn tab_complete(i: &[u8]) -> (r: Result<(&[u8], PlayPacket), ParseError>)
    ensures
        r matches Ok((_, p)) ==> p.id() == 0x06,
        model_parses_to(i@, r, sp_tab_complete(i@), |p: PlayPacket| tab_complete_model(p)),
{
    let (i1, transaction_id) = vu32(i)?;
    let (i2, t) = text(i1, 32500)?;
    proof {
        lemma_suffix_trans(i@, i1@, i2@);
    }
    Ok((i2, PlayPacket::TabComplete { transaction_id, text: t }))
}

fn plugin_message(i: &[u8]) -> (r: Result<(&[u8], PlayPacket), ParseError>)
    ensures
        r matches Ok((_, p)) ==> p.id() == 0x0a,
        model_parses_to(i@, r, sp_plugin_message(i@), |p: PlayPacket| plugin_message_model(p)),
{
    let (i1, channel) = identifier(i)?;
    let data = vstd::slice::slice_to_vec(i1);
    let (_, rest) = i1.split_at(i1.len());
    proof {
        lemma_suffix_trans(i@, i1@, rest@);
    }
    Ok((rest, PlayPacket::PluginMessage { channel, data }))
}

fn craft_recipe_request(i: &[u8]) -> (r: Result<(&[u8], PlayPacket), ParseError>)
    ensures
        r matches Ok((_, p)) ==> p.id() == 0x18,
        model_parses_to(i@, r, sp_craft_recipe_request(i@), |p: PlayPacket| craft_recipe_request_model(p)),
{
    let (i1, window_id) = byte(i)?;
    let (i2, recipe) = identifier(i1)?;
    let (i3, make_all) = flag(i2)?;
    proof {
        lemma_suffix_trans(i1@, i2@, i3@);
        lemma_suffix_trans(i@, i1@, i3@);
    }
    Ok((i3, PlayPacket::CraftRecipeRequest { window_id, recipe, make_all }))
}

fn set_displayed_recipe(i: &[u8]) -> (r: Result<(&[u8], PlayPacket), ParseError>)
    ensures
        r matches Ok((_, p)) ==> p.id() == 0x1f,
        model_parses_to(i@, r, sp_set_displayed_recipe(i@), |p: PlayPacket| set_displayed_recipe_model(p)),
{
    let (i1, recipe_id) = identifier(i)?;
    Ok((i1, PlayPacket::SetDisplayedRecipe { recipe_id }))
}

/// `count` strings in a row, as their bytes.
pub open spec fn sp_strings(s: Seq<u8>, count: nat) -> Result<(Seq<Seq<u8>>, nat), ParseError>
    decreases count,
{
    if count == 0 {
        Ok((Seq::empty(), 0))
    } else {
        match sp_str(s, DEFAULT_MAX_STRING_LENGTH as nat) {
            Err(e) => Err(e),
            Ok((t, n)) => match sp_strings(after(s, n as int), (count - 1) as nat) {
                Err(e) => Err(e),
                Ok((ts, k)) => Ok((seq![t] + ts, n + k)),
            },
        }
    }
}

/// What the strings read so far and the rest give together.
pub open spec fn prepend_strings(
    done_: Seq<Seq<u8>>,
    used: nat,
    rest: Result<(Seq<Seq<u8>>, nat), ParseError>,
) -> Result<(Seq<Seq<u8>>, nat), ParseError> {
    match rest {
        Err(e) => Err(e),
        Ok((ts, k)) => Ok((done_ + ts, used + k)),
    }
}

/// A flag and, when set, a string.
pub open spec fn sp_title(s: Seq<u8>) -> Result<(Option<Seq<u8>>, nat), ParseError> {
    then(sp_bool(s), s, |present: bool, s1: Seq<u8>|
        if present {
            match sp_str(s1, DEFAULT_MAX_STRING_LENGTH as nat) {
                Err(e) => Err(e),
                Ok((t, n)) => Ok((Some(t), n)),
            }
        } else {
            done(None)
        })
}

/// Packet 0x0b: hand, the pages, and the title if there is one.
pub type EditBookModel = (Hand, Seq<Seq<u8>>, Option<Seq<u8>>);

pub open spec fn sp_edit_book(s: Seq<u8>) -> Result<(EditBookModel, nat), ParseError> {
    then(sp_hand(s), s, |h: Hand, s1: Seq<u8>|
        then(sp_var(s1), s1, |count: u32, s2: Seq<u8>|
            then(sp_strings(s2, count as nat), s2, |pages: Seq<Seq<u8>>, s3: Seq<u8>|
                then(sp_title(s3), s3, |title: Option<Seq<u8>>, s4: Seq<u8>| done((h, pages, title))))))
}

pub open spec fn title_bytes(t: Option<String>) -> Option<Seq<u8>> {
    match t {
        Some(x) => Some(text_bytes(x)),
        None => None,
    }
}

pub open spec fn edit_book_model(p: PlayPacket) -> EditBookModel {
    match p {
        PlayPacket::EditBook { hand, entries, title } => (
            hand,
            entries@.map_values(|e: String| text_bytes(e)),
            title_bytes(title),
        ),
        _ => (Hand::Mainhand, Seq::empty(), None),
    }
}

/// `count` slot entries in a row: a big-endian `i16` index and a slot each.
pub open spec fn sp_slot_entries(s: Seq<u8>, count: nat) -> Result<(Seq<(i16, Slot)>, nat), ParseError>
    decreases count,
{
    if count == 0 {
        Ok((Seq::empty(), 0))
    } else if s.len() < 2 {
        Err(ParseError::Incomplete)
    } else {
        let idx = signed_of(be_value(s.subrange(0, 2)), 0x1_0000) as i16;
        match spec_slot(after(s, 2)) {
            Err(e) => Err(e),
            Ok((slot, n)) => match sp_slot_entries(after(s, 2 + n as int), (count - 1) as nat) {
                Err(e) => Err(e),
                Ok((es, k)) => Ok((seq![(idx, slot)] + es, 2 + n + k)),
            },
        }
    }
}

pub open spec fn prepend_entries(
    done_: Seq<(i16, Slot)>,
    used: nat,
    rest: Result<(Seq<(i16, Slot)>, nat), ParseError>,
) -> Result<(Seq<(i16, Slot)>, nat), ParseError> {
    match rest {
        Err(e) => Err(e),
        Ok((es, k)) => Ok((done_ + es, used + k)),
    }
}

pub open spec fn sp_i16(s: Seq<u8>) -> Result<(i16, nat), ParseError> {
    if s.len() < 2 {
        Err(ParseError::Incomplete)
    } else {
        Ok((signed_of(be_value(s.subrange(0, 2)), 0x1_0000) as i16, 2))
    }
}

pub open spec fn sp_slot(s: Seq<u8>) -> Result<(Slot, nat), ParseError> {
    spec_slot(s)
}

/// Packet 0x08: window id, state id, slot, button, mode, the changed
/// slots, and the item under the cursor.
pub type ClickWindowModel = (u8, u32, i16, u8, u32, Seq<(i16, Slot)>, Slot);

pub open spec fn sp_click_window(s: Seq<u8>) -> Result<(ClickWindowModel, nat), ParseError> {
    then(sp_u8(s), s, |w: u8, s1: Seq<u8>|
        then(sp_var(s1), s1, |st: u32, s2: Seq<u8>|
            then(sp_i16(s2), s2, |sl: i16, s3: Seq<u8>|
                then(sp_u8(s3), s3, |b: u8, s4: Seq<u8>|
                    then(sp_var(s4), s4, |m: u32, s5: Seq<u8>|
                        then(sp_var(s5), s5, |count: u32, s6: Seq<u8>|
                            then(sp_slot_entries(s6, count as nat), s6, |es: Seq<(i16, Slot)>, s7: Seq<u8>|
                                then(sp_slot(s7), s7, |c: Slot, s8: Seq<u8>| done((w, st, sl, b, m, es, c))))))))))
}

pub open spec fn click_window_model(p: PlayPacket) -> ClickWindowModel {
    match p {
        PlayPacket::ClickWindow { window_id, state_id, slot, button, mode, slots, clicked_item } => (
            window_id,
            state_id,
            slot,
            button,
            mode,
            slots@,
            clicked_item,
        ),
        _ => (0, 0, 0, 0, 0, Seq::empty(), None),
    }
}

fn i16_field(i: &[u8]) -> (r: Result<(&[u8], i16), ParseError>)
    ensures
        parses_to(i@, r, sp_i16(i@)),
{
    let r = be_i16(i);
    proof {
        if i@.len() >= 2 {
            assert(after(i@, 2).len() == i@.len() - 2);
        }
    }
    r
}

fn slot_field(i: &[u8]) -> (r: Result<(&[u8], Slot), ParseError>)
    ensures
        parses_to(i@, r, sp_slot(i@)),
{
    parse_slot(i)
}

/// Reads `count` strings.
fn strings(i: &[u8], count: u32) -> (r: Result<(&[u8], Vec<String>), ParseError>)
    ensures
        match r {
            Ok((rest, v)) => is_suffix(i@, rest@) && sp_strings(i@, count as nat) == Ok::<
                (Seq<Seq<u8>>, nat),
                ParseError,
            >((v@.map_values(|e: String| text_bytes(e)), consumed(i@, rest@))),
            Err(e) => sp_strings(i@, count as nat) == Err::<(Seq<Seq<u8>>, nat), ParseError>(e),
        },
{
    let ghost input = i@;
    let mut cur = i;
    let mut out: Vec<String> = Vec::new();
    let mut k: u32 = 0;
    assert(input.subrange(0, input.len() as int) =~= input);
    assert(out@.map_values(|e: String| text_bytes(e)) =~= Seq::<Seq<u8>>::empty());
    while k < count
        invariant
            k <= count,
            input == i@,
            is_suffix(input, cur@),
            sp_strings(input, count as nat) == prepend_strings(
                out@.map_values(|e: String| text_bytes(e)),
                consumed(input, cur@),
                sp_strings(cur@, (count - k) as nat),
            ),
        decreases count - k,
    {
        let (next, t) = match text(cur, DEFAULT_MAX_STRING_LENGTH) {
            Ok(x) => x,
            Err(e) => {
                assert(sp_strings(cur@, (count - k) as nat) == Err::<(Seq<Seq<u8>>, nat), ParseError>(
                    e,
                ));
                return Err(e);
            },
        };
        proof {
            lemma_suffix_trans(input, cur@, next@);
            assert(out@.push(t).map_values(|e: String| text_bytes(e)) =~= out@.map_values(
                |e: String| text_bytes(e),
            ) + seq![text_bytes(t)]);
            match sp_strings(next@, (count - k - 1) as nat) {
                Ok((ts, m)) => {
                    assert(seq![text_bytes(t)] + ts =~= seq![text_bytes(t)] + ts);
                    assert(out@.map_values(|e: String| text_bytes(e)) + (seq![text_bytes(t)] + ts)
                        =~= out@.map_values(|e: String| text_bytes(e)) + seq![text_bytes(t)] + ts);
                },
                Err(_) => {},
            }
        }
        out.push(t);
        cur = next;
        k = k + 1;
    }
    proof {
        assert(out@.map_values(|e: String| text_bytes(e)) + Seq::<Seq<u8>>::empty() =~= out@.map_values(
            |e: String| text_bytes(e),
        ));
    }
    Ok((cur, out))
}

/// Reads `count` slot entries.
fn slot_entry_list(i: &[u8], count: u32) -> (r: Result<(&[u8], Vec<(i16, Slot)>), ParseError>)
    ensures
        match r {
            Ok((rest, v)) => is_suffix(i@, rest@) && sp_slot_entries(i@, count as nat) == Ok::<
                (Seq<(i16, Slot)>, nat),
                ParseError,
            >((v@, consumed(i@, rest@))),
            Err(e) => sp_slot_entries(i@, count as nat) == Err::<(Seq<(i16, Slot)>, nat), ParseError>(e),
        },
{
    let ghost input = i@;
    let mut cur = i;
    let mut out: Vec<(i16, Slot)> = Vec::new();
    let mut k: u32 = 0;
    assert(input.subrange(0, input.len() as int) =~= input);
    while k < count
        invariant
            k <= count,
            input == i@,
            is_suffix(input, cur@),
            sp_slot_entries(input, count as nat) == prepend_entries(
                out@,
                consumed(input, cur@),
                sp_slot_entries(cur@, (count - k) as nat),
            ),
        decreases count - k,
    {
        let (c1, idx) = match i16_field(cur) {
            Ok(x) => x,
            Err(e) => {
                assert(sp_slot_entries(cur@, (count - k) as nat) == Err::<
                    (Seq<(i16, Slot)>, nat),
                    ParseError,
                >(e));
                return Err(e);
            },
        };
        let (c2, slot) = match slot_field(c1) {
            Ok(x) => x,
            Err(e) => {
                assert(sp_slot_entries(cur@, (count - k) as nat) == Err::<
                    (Seq<(i16, Slot)>, nat),
                    ParseError,
                >(e));
                return Err(e);
            },
        };
        proof {
            lemma_suffix_trans(cur@, c1@, c2@);
            lemma_suffix_trans(input, cur@, c2@);
            assert(out@.push((idx, slot)) =~= out@ + seq![(idx, slot)]);
            match sp_slot_entries(c2@, (count - k - 1) as nat) {
                Ok((es, m)) => {
                    assert(out@ + (seq![(idx, slot)] + es) =~= out@ + seq![(idx, slot)] + es);
                },
                Err(_) => {},
            }
        }
        out.push((idx, slot));
        cur = c2;
        k = k + 1;
    }
    proof {
        assert(out@ + Seq::<(i16, Slot)>::empty() =~= out@);
    }
    Ok((cur, out))
}

fn edit_book(i: &[u8]) -> (r: Result<(&[u8], PlayPacket), ParseError>)
    ensures
        r matches Ok((_, p)) ==> p.id() == 0x0b,
        model_parses_to(i@, r, sp_edit_book(i@), |p: PlayPacket| edit_book_model(p)),
{
    let (i1, hand) = hand(i)?;
    let (i2, count) = vu32(i1)?;
    let (i3, entries) = strings(i2, count)?;
    let (i4, present) = flag(i3)?;
    let (i5, title) = if present {
        let (j, t) = text(i4, DEFAULT_MAX_STRING_LENGTH)?;
        (j, Some(t))
    } else {
        (i4, None)
    };
    proof {
        if present {
            lemma_suffix_trans(i3@, i4@, i5@);
        } else {
            assert(i5@ == after(i4@, 0));
            assert(i3@ =~= after(i3@, 0));
        }
        lemma_suffix_trans(i2@, i3@, i5@);
        lemma_suffix_trans(i1@, i2@, i5@);
        lemma_suffix_trans(i@, i1@, i5@);
    }
    Ok((i5, PlayPacket::EditBook { hand, entries, title }))
}

#[verifier::rlimit(100)]
fn click_window(i: &[u8]) -> (r: Result<(&[u8], PlayPacket), ParseError>)
    ensures
        r matches Ok((_, p)) ==> p.id() == 0x08,
        model_parses_to(i@, r, sp_click_window(i@), |p: PlayPacket| click_window_model(p)),
{
    let (i1, window_id) = byte(i)?;
    let (i2, state_id) = vu32(i1)?;
    let (i3, slot) = i16_field(i2)?;
    let (i4, button) = byte(i3)?;
    let (i5, mode) = vu32(i4)?;
    let (i6, count) = vu32(i5)?;
    let (i7, slots) = slot_entry_list(i6, count)?;
    let (i8, clicked_item) = slot_field(i7)?;
    proof {
        lemma_suffix_trans(i6@, i7@, i8@);
        lemma_suffix_trans(i5@, i6@, i8@);
        lemma_suffix_trans(i4@, i5@, i8@);
        lemma_suffix_trans(i3@, i4@, i8@);
        lemma_suffix_trans(i2@, i3@, i8@);
        lemma_suffix_trans(i1@, i2@, i8@);
        lemma_suffix_trans(i@, i1@, i8@);
    }
    Ok((i8, PlayPacket::ClickWindow { window_id, state_id, slot, button, mode, slots, clicked_item }))
}

/// Reads the fields of the play packet with the given id.
#[verifier::rlimit(100)]
fn play_fields(id: u32, i: &[u8]) -> (r: Result<(&[u8], PlayPacket), ParseError>)
    requires
        id <= LAST_PLAY_PACKET_ID,
    ensures
        r matches Ok((_, p)) ==> p.id() == id,
        fixed_layout(id) ==> parses_to(i@, r, spec_play_fields(id, i@)),
        id == 0x03 ==> model_parses_to(i@, r, sp_chat_message(i@), |p: PlayPacket| chat_message_model(p)),
        id == 0x05 ==> model_parses_to(i@, r, sp_client_settings(i@), |p: PlayPacket| client_settings_model(p)),
        id == 0x06 ==> model_parses_to(i@, r, sp_tab_complete(i@), |p: PlayPacket| tab_complete_model(p)),
        id == 0x0a ==> model_parses_to(i@, r, sp_plugin_message(i@), |p: PlayPacket| plugin_message_model(p)),
        id == 0x18 ==> model_parses_to(
            i@,
            r,
            sp_craft_recipe_request(i@),
            |p: PlayPacket| craft_recipe_request_model(p),
        ),
        id == 0x08 ==> model_parses_to(i@, r, sp_click_window(i@), |p: PlayPacket| click_window_model(p)),
        id == 0x0b ==> model_parses_to(i@, r, sp_edit_book(i@), |p: PlayPacket| edit_book_model(p)),
        id == 0x1f ==> model_parses_to(
            i@,
            r,
            sp_set_displayed_recipe(i@),
            |p: PlayPacket| set_displayed_recipe_model(p),
        ),
{
    if id == 0x00 {
        teleport_confirm(i)
    } else if id == 0x01 {
        query_block_nbt(i)
    } else if id == 0x02 {
        set_difficulty(i)
    } else if id == 0x03 {
        chat_message(i)
    } else if id == 0x04 {
        client_status(i)
    } else if id == 0x05 {
        client_settings(i)
    } else if id == 0x06 {
        tab_complete(i)
    } else if id == 0x07 {
        click_window_button(i)
    } else if id == 0x08 {
        click_window(i)
    } else if id == 0x09 {
        close_window(i)
    } else if id == 0x0a {
        plugin_message(i)
    } else if id == 0x0b {
        edit_book(i)
    } else if id == 0x0c {
        query_entity_nbt(i)
    } else if id == 0x0d {
        interact_entity(i)
    } else if id == 0x0e {
        generate_structure(i)
    } else if id == 0x0f {
        keep_alive(i)
    } else if id == 0x10 {
        lock_difficulty(i)
    } else if id == 0x11 {
        player_position(i)
    } else if id == 0x12 {
        player_position_and_rotation(i)
    } else if id == 0x13 {
        player_rotation(i)
    } else if id == 0x14 {
        player_movement(i)
    } else if id == 0x15 {
        vehicle_move(i)
    } else if id == 0x16 {
        steer_boat(i)
    } else if id == 0x17 {
        pick_item(i)
    } else if id == 0x18 {
        craft_recipe_request(i)
    } else if id == 0x19 {
        player_abilities(i)
    } else if id == 0x1a {
        player_digging(i)
    } else if id == 0x1b {
        entity_action_packet(i)
    } else if id == 0x1c {
        steer_vehicle(i)
    } else if id == 0x1d {
        pong(i)
    } else if id == 0x1e {
        set_recipe_book_state(i)
    } else {
        set_displayed_recipe(i)
    }
}

/// What reading a whole packet body gives when its fields, read after an
/// id of `n` bytes, are `expected` under `model`: the fields' error, the
/// packet, or an error for bytes left over.
pub open spec fn packet_result<M>(
    body_len: nat,
    n: nat,
    expected: Result<(M, nat), ParseError>,
    r: Result<PlayPacket, ParseError>,
    model: spec_fn(PlayPacket) -> M,
) -> bool {
    match expected {
        Err(e) => r == Err::<PlayPacket, ParseError>(e),
        Ok((m, k)) => if n + k == body_len {
            r matches Ok(p) && model(p) == m
        } else {
            r == Err::<PlayPacket, ParseError>(ParseError::TrailingBytes)
        },
    }
}

/// Whether fields read after an id of `n` bytes fill a body of `body_len`
/// bytes: their error, success, or an error for bytes left over.
pub open spec fn fills<M>(body_len: nat, n: nat, fields: Result<(M, nat), ParseError>) -> Result<(), ParseError> {
    match fields {
        Err(e) => Err(e),
        Ok((_, k)) => if n + k == body_len {
            Ok(())
        } else {
            Err(ParseError::TrailingBytes)
        },
    }
}

/// Whether a play-phase body parses, and if not, the error.
pub open spec fn spec_play_outcome(b: Seq<u8>) -> Result<(), ParseError> {
    match spec_varint32(b) {
        Err(e) => Err(e),
        Ok((id, n)) => {
            let s = after(b, n as int);
            if id > LAST_PLAY_PACKET_ID {
                Err(ParseError::UnknownPacketId(id))
            } else if fixed_layout(id) {
                fills(b.len(), n, spec_play_fields(id, s))
            } else if id == 0x03 {
                fills(b.len(), n, sp_chat_message(s))
            } else if id == 0x05 {
                fills(b.len(), n, sp_client_settings(s))
            } else if id == 0x06 {
                fills(b.len(), n, sp_tab_complete(s))
            } else if id == 0x08 {
                fills(b.len(), n, sp_click_window(s))
            } else if id == 0x0a {
                fills(b.len(), n, sp_plugin_message(s))
            } else if id == 0x0b {
                fills(b.len(), n, sp_edit_book(s))
            } else if id == 0x18 {
                fills(b.len(), n, sp_craft_recipe_request(s))
            } else {
                fills(b.len(), n, sp_set_displayed_recipe(s))
            }
        },
    }
}

/// Reads the body of a play-phase frame: the id picks the packet, whose
/// fields must fill the rest of the body.
pub fn read_play(body: &[u8]) -> (r: Result<PlayPacket, ParseError>)
    ensures
        match r {
            Ok(_) => spec_play_outcome(body@) == Ok::<(), ParseError>(()),
            Err(e) => spec_play_outcome(body@) == Err::<(), ParseError>(e),
        },
        match spec_varint32(body@) {
            Err(e) => r == Err::<PlayPacket, ParseError>(e),
            Ok((id, n)) => {
                &&& id > LAST_PLAY_PACKET_ID ==> r == Err::<PlayPacket, ParseError>(
                    ParseError::UnknownPacketId(id),
                )
                &&& r matches Ok(p) ==> p.id() == id
                &&& fixed_layout(id) ==> match spec_play_fields(id, after(body@, n as int)) {
                    Err(e) => r == Err::<PlayPacket, ParseError>(e),
                    Ok((p, k)) => if n + k == body@.len() {
                        r == Ok::<PlayPacket, ParseError>(p)
                    } else {
                        r == Err::<PlayPacket, ParseError>(ParseError::TrailingBytes)
                    },
                }
                &&& id == 0x03 ==> packet_result(
                    body@.len(),
                    n,
                    sp_chat_message(after(body@, n as int)),
                    r,
                    |p: PlayPacket| chat_message_model(p),
                )
                &&& id == 0x05 ==> packet_result(
                    body@.len(),
                    n,
                    sp_client_settings(after(body@, n as int)),
                    r,
                    |p: PlayPacket| client_settings_model(p),
                )
                &&& id == 0x06 ==> packet_result(
                    body@.len(),
                    n,
                    sp_tab_complete(after(body@, n as int)),
                    r,
                    |p: PlayPacket| tab_complete_model(p),
                )
                &&& id == 0x0a ==> packet_result(
                    body@.len(),
                    n,
                    sp_plugin_message(after(body@, n as int)),
                    r,
                    |p: PlayPacket| plugin_message_model(p),
                )
                &&& id == 0x18 ==> packet_result(
                    body@.len(),
                    n,
                    sp_craft_recipe_request(after(body@, n as int)),
                    r,
                    |p: PlayPacket| craft_recipe_request_model(p),
                )
                &&& id == 0x08 ==> packet_result(
                    body@.len(),
                    n,
                    sp_click_window(after(body@, n as int)),
                    r,
                    |p: PlayPacket| click_window_model(p),
                )
                &&& id == 0x0b ==> packet_result(
                    body@.len(),
                    n,
                    sp_edit_book(after(body@, n as int)),
                    r,
                    |p: PlayPacket| edit_book_model(p),
                )
                &&& id == 0x1f ==> packet_result(
                    body@.len(),
                    n,
                    sp_set_displayed_recipe(after(body@, n as int)),
                    r,
                    |p: PlayPacket| set_displayed_recipe_model(p),
                )
            },
        },
{
    let (b1, id) = match packet_id(body) {
        Ok(x) => x,
        Err(e) => return Err(e),
    };
    if id > LAST_PLAY_PACKET_ID {
        return Err(ParseError::UnknownPacketId(id));
    }
    let (rest, p) = match play_fields(id, b1) {
        Ok(x) => x,
        Err(e) => return Err(e),
    };
    proof {
        lemma_suffix_trans(body@, b1@, rest@);
    }
    if rest.len() != 0 {
        return Err(ParseError::TrailingBytes);
    }
    Ok(p)
}

} // verus!
