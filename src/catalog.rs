//! The catalogs of message kinds: the network and server families that a
//! packet region carries, and the user-message family nested in one server
//! message.

use vstd::prelude::*;

verus! {

/// A network-layer message kind.
#[derive(Clone, Copy, Debug, PartialEq, Eq, Structural)]
pub enum NetKind {
    Nop,
    Disconnect,
    File,
    SplitScreenUser,
    Tick,
    StringCmd,
    SetConVar,
    SignonState,
    PlayerAvatarData,
}

/// The catalog: which NetKind a code stands for, if any.
pub open spec fn net_kind_of(code: u32) -> Option<NetKind> {
    match code {
        0 => Some(NetKind::Nop),
        1 => Some(NetKind::Disconnect),
        2 => Some(NetKind::File),
        3 => Some(NetKind::SplitScreenUser),
        4 => Some(NetKind::Tick),
        5 => Some(NetKind::StringCmd),
        6 => Some(NetKind::SetConVar),
        7 => Some(NetKind::SignonState),
        100 => Some(NetKind::PlayerAvatarData),
        _ => None,
    }
}

impl NetKind {
    pub open spec fn spec_code(self) -> u32 {
        match self {
            NetKind::Nop => 0,
            NetKind::Disconnect => 1,
            NetKind::File => 2,
            NetKind::SplitScreenUser => 3,
            NetKind::Tick => 4,
            NetKind::StringCmd => 5,
            NetKind::SetConVar => 6,
            NetKind::SignonState => 7,
            NetKind::PlayerAvatarData => 100,
        }
    }

    /// Looks `code` up in the catalog.
    pub fn from_code(code: u32) -> (r: Option<NetKind>)
        ensures
            r == net_kind_of(code),
    {
        match code {
            0 => Some(NetKind::Nop),
            1 => Some(NetKind::Disconnect),
            2 => Some(NetKind::File),
            3 => Some(NetKind::SplitScreenUser),
            4 => Some(NetKind::Tick),
            5 => Some(NetKind::StringCmd),
            6 => Some(NetKind::SetConVar),
            7 => Some(NetKind::SignonState),
            100 => Some(NetKind::PlayerAvatarData),
            _ => None,
        }
    }

    /// The code of this kind on the wire.
    pub fn code(&self) -> (r: u32)
        ensures
            r == self.spec_code(),
    {
        match self {
            NetKind::Nop => 0,
            NetKind::Disconnect => 1,
            NetKind::File => 2,
            NetKind::SplitScreenUser => 3,
            NetKind::Tick => 4,
            NetKind::StringCmd => 5,
            NetKind::SetConVar => 6,
            NetKind::SignonState => 7,
            NetKind::PlayerAvatarData => 100,
        }
    }

    /// Every kind is found again under its own code.
    pub proof fn lemma_code_round_trip(self)
        ensures
            net_kind_of(self.spec_code()) == Some(self),
    {
    }
}

/// A server-layer message kind.
#[derive(Clone, Copy, Debug, PartialEq, Eq, Structural)]
pub enum SvcKind {
    ServerInfo,
    SendTable,
    ClassInfo,
    SetPause,
    CreateStringTable,
    UpdateStringTable,
    VoiceInit,
    VoiceData,
    Print,
    Sounds,
    SetView,
    FixAngle,
    CrosshairAngle,
    BspDecal,
    SplitScreen,
    UserMessage,
    EntityMessage,
    GameEvent,
    PacketEntities,
    TempEntities,
    Prefetch,
    Menu,
    GameEventList,
    GetCvarValue,
    PaintmapData,
    CmdKeyValues,
    EncryptedData,
    HltvReplay,
    BroadcastCommand,
}

/// The catalog: which SvcKind a code stands for, if any.
pub open spec fn svc_kind_of(code: u32) -> Option<SvcKind> {
    match code {
        8 => Some(SvcKind::ServerInfo),
        9 => Some(SvcKind::SendTable),
        10 => Some(SvcKind::ClassInfo),
        11 => Some(SvcKind::SetPause),
        12 => Some(SvcKind::CreateStringTable),
        13 => Some(SvcKind::UpdateStringTable),
        14 => Some(SvcKind::VoiceInit),
        15 => Some(SvcKind::VoiceData),
        16 => Some(SvcKind::Print),
        17 => Some(SvcKind::Sounds),
        18 => Some(SvcKind::SetView),
        19 => Some(SvcKind::FixAngle),
        20 => Some(SvcKind::CrosshairAngle),
        21 => Some(SvcKind::BspDecal),
        22 => Some(SvcKind::SplitScreen),
        23 => Some(SvcKind::UserMessage),
        24 => Some(SvcKind::EntityMessage),
        25 => Some(SvcKind::GameEvent),
        26 => Some(SvcKind::PacketEntities),
        27 => Some(SvcKind::TempEntities),
        28 => Some(SvcKind::Prefetch),
        29 => Some(SvcKind::Menu),
        30 => Some(SvcKind::GameEventList),
        31 => Some(SvcKind::GetCvarValue),
        33 => Some(SvcKind::PaintmapData),
        34 => Some(SvcKind::CmdKeyValues),
        35 => Some(SvcKind::EncryptedData),
        36 => Some(SvcKind::HltvReplay),
        38 => Some(SvcKind::BroadcastCommand),
        _ => None,
    }
}

impl SvcKind {
    pub open spec fn spec_code(self) -> u32 {
        match self {
            SvcKind::ServerInfo => 8,
            SvcKind::SendTable => 9,
            SvcKind::ClassInfo => 10,
            SvcKind::SetPause => 11,
            SvcKind::CreateStringTable => 12,
            SvcKind::UpdateStringTable => 13,
            SvcKind::VoiceInit => 14,
            SvcKind::VoiceData => 15,
            SvcKind::Print => 16,
            SvcKind::Sounds => 17,
            SvcKind::SetView => 18,
            SvcKind::FixAngle => 19,
            SvcKind::CrosshairAngle => 20,
            SvcKind::BspDecal => 21,
            SvcKind::SplitScreen => 22,
            SvcKind::UserMessage => 23,
            SvcKind::EntityMessage => 24,
            SvcKind::GameEvent => 25,
            SvcKind::PacketEntities => 26,
            SvcKind::TempEntities => 27,
            SvcKind::Prefetch => 28,
            SvcKind::Menu => 29,
            SvcKind::GameEventList => 30,
            SvcKind::GetCvarValue => 31,
            SvcKind::PaintmapData => 33,
            SvcKind::CmdKeyValues => 34,
            SvcKind::EncryptedData => 35,
            SvcKind::HltvReplay => 36,
            SvcKind::BroadcastCommand => 38,
        }
    }

    /// Looks `code` up in the catalog.
    pub fn from_code(code: u32) -> (r: Option<SvcKind>)
        ensures
            r == svc_kind_of(code),
    {
        match code {
            8 => Some(SvcKind::ServerInfo),
            9 => Some(SvcKind::SendTable),
            10 => Some(SvcKind::ClassInfo),
            11 => Some(SvcKind::SetPause),
            12 => Some(SvcKind::CreateStringTable),
            13 => Some(SvcKind::UpdateStringTable),
            14 => Some(SvcKind::VoiceInit),
            15 => Some(SvcKind::VoiceData),
            16 => Some(SvcKind::Print),
            17 => Some(SvcKind::Sounds),
            18 => Some(SvcKind::SetView),
            19 => Some(SvcKind::FixAngle),
            20 => Some(SvcKind::CrosshairAngle),
            21 => Some(SvcKind::BspDecal),
            22 => Some(SvcKind::SplitScreen),
            23 => Some(SvcKind::UserMessage),
            24 => Some(SvcKind::EntityMessage),
            25 => Some(SvcKind::GameEvent),
            26 => Some(SvcKind::PacketEntities),
            27 => Some(SvcKind::TempEntities),
            28 => Some(SvcKind::Prefetch),
            29 => Some(SvcKind::Menu),
            30 => Some(SvcKind::GameEventList),
            31 => Some(SvcKind::GetCvarValue),
            33 => Some(SvcKind::PaintmapData),
            34 => Some(SvcKind::CmdKeyValues),
            35 => Some(SvcKind::EncryptedData),
            36 => Some(SvcKind::HltvReplay),
            38 => Some(SvcKind::BroadcastCommand),
            _ => None,
        }
    }

    /// The code of this kind on the wire.
    pub fn code(&self) -> (r: u32)
        ensures
            r == self.spec_code(),
    {
        match self {
            SvcKind::ServerInfo => 8,
            SvcKind::SendTable => 9,
            SvcKind::ClassInfo => 10,
            SvcKind::SetPause => 11,
            SvcKind::CreateStringTable => 12,
            SvcKind::UpdateStringTable => 13,
            SvcKind::VoiceInit => 14,
            SvcKind::VoiceData => 15,
            SvcKind::Print => 16,
            SvcKind::Sounds => 17,
            SvcKind::SetView => 18,
            SvcKind::FixAngle => 19,
            SvcKind::CrosshairAngle => 20,
            SvcKind::BspDecal => 21,
            SvcKind::SplitScreen => 22,
            SvcKind::UserMessage => 23,
            SvcKind::EntityMessage => 24,
            SvcKind::GameEvent => 25,
            SvcKind::PacketEntities => 26,
            SvcKind::TempEntities => 27,
            SvcKind::Prefetch => 28,
            SvcKind::Menu => 29,
            SvcKind::GameEventList => 30,
            SvcKind::GetCvarValue => 31,
            SvcKind::PaintmapData => 33,
            SvcKind::CmdKeyValues => 34,
            SvcKind::EncryptedData => 35,
            SvcKind::HltvReplay => 36,
            SvcKind::BroadcastCommand => 38,
        }
    }

    /// Every kind is found again under its own code.
    pub proof fn lemma_code_round_trip(self)
        ensures
            svc_kind_of(self.spec_code()) == Some(self),
    {
    }
}

/// A kind of the user-message sub-protocol.
#[derive(Clone, Copy, Debug, PartialEq, Eq, Structural)]
pub enum UserMessageKind {
    VguiMenu,
    Geiger,
    Train,
    HudText,
    SayText,
    SayText2,
    TextMsg,
    HudMsg,
    ResetHud,
    GameTitle,
    Shake,
    Fade,
    Rumble,
    CloseCaption,
    CloseCaptionDirect,
    SendAudio,
    RawAudio,
    VoiceMask,
    RequestState,
    Damage,
    RadioText,
    HintText,
    KeyHintText,
    ProcessSpottedEntityUpdate,
    ReloadEffect,
    AdjustMoney,
    StopSpectatorMode,
    KillCam,
    DesiredTimescale,
    CurrentTimescale,
    AchievementEvent,
    MatchEndConditions,
    DisconnectToLobby,
    PlayerStatsUpdate,
    DisplayInventory,
    WarmupHasEnded,
    ClientInfo,
    XRankGet,
    XRankUpd,
    CallVoteFailed,
    VoteStart,
    VotePass,
    VoteFailed,
    VoteSetup,
    ServerRankRevealAll,
    SendLastKillerDamageToClient,
    ServerRankUpdate,
    ItemPickup,
    ShowMenu,
    BarTime,
    AmmoDenied,
    MarkAchievement,
    MatchStatsUpdate,
    ItemDrop,
    GlowPropTurnOff,
    SendPlayerItemDrops,
    RoundBackupFilenames,
    SendPlayerItemFound,
    ReportHit,
    XpUpdate,
    QuestProgress,
    ScoreLeaderboardData,
    PlayerDecalDigitalSignature,
    WeaponSound,
    UpdateScreenHealthBar,
    EntityOutlineHighlight,
    Ssui,
    SurvivalStats,
    EndOfMatchAllPlayersData,
    RoundImpactScoreData,
    CurrentRoundOdds,
    DeepStats,
}

/// The catalog: which UserMessageKind a code stands for, if any.
pub open spec fn user_message_kind_of(code: i32) -> Option<UserMessageKind> {
    match code {
        1 => Some(UserMessageKind::VguiMenu),
        2 => Some(UserMessageKind::Geiger),
        3 => Some(UserMessageKind::Train),
        4 => Some(UserMessageKind::HudText),
        5 => Some(UserMessageKind::SayText),
        6 => Some(UserMessageKind::SayText2),
        7 => Some(UserMessageKind::TextMsg),
        8 => Some(UserMessageKind::HudMsg),
        9 => Some(UserMessageKind::ResetHud),
        10 => Some(UserMessageKind::GameTitle),
        12 => Some(UserMessageKind::Shake),
        13 => Some(UserMessageKind::Fade),
        14 => Some(UserMessageKind::Rumble),
        15 => Some(UserMessageKind::CloseCaption),
        16 => Some(UserMessageKind::CloseCaptionDirect),
        17 => Some(UserMessageKind::SendAudio),
        18 => Some(UserMessageKind::RawAudio),
        19 => Some(UserMessageKind::VoiceMask),
        20 => Some(UserMessageKind::RequestState),
        21 => Some(UserMessageKind::Damage),
        22 => Some(UserMessageKind::RadioText),
        23 => Some(UserMessageKind::HintText),
        24 => Some(UserMessageKind::KeyHintText),
        25 => Some(UserMessageKind::ProcessSpottedEntityUpdate),
        26 => Some(UserMessageKind::ReloadEffect),
        27 => Some(UserMessageKind::AdjustMoney),
        29 => Some(UserMessageKind::StopSpectatorMode),
        30 => Some(UserMessageKind::KillCam),
        31 => Some(UserMessageKind::DesiredTimescale),
        32 => Some(UserMessageKind::CurrentTimescale),
        33 => Some(UserMessageKind::AchievementEvent),
        34 => Some(UserMessageKind::MatchEndConditions),
        35 => Some(UserMessageKind::DisconnectToLobby),
        36 => Some(UserMessageKind::PlayerStatsUpdate),
        37 => Some(UserMessageKind::DisplayInventory),
        38 => Some(UserMessageKind::WarmupHasEnded),
        39 => Some(UserMessageKind::ClientInfo),
        40 => Some(UserMessageKind::XRankGet),
        41 => Some(UserMessageKind::XRankUpd),
        45 => Some(UserMessageKind::CallVoteFailed),
        46 => Some(UserMessageKind::VoteStart),
        47 => Some(UserMessageKind::VotePass),
        48 => Some(UserMessageKind::VoteFailed),
        49 => Some(UserMessageKind::VoteSetup),
        50 => Some(UserMessageKind::ServerRankRevealAll),
        51 => Some(UserMessageKind::SendLastKillerDamageToClient),
        52 => Some(UserMessageKind::ServerRankUpdate),
        53 => Some(UserMessageKind::ItemPickup),
        54 => Some(UserMessageKind::ShowMenu),
        55 => Some(UserMessageKind::BarTime),
        56 => Some(UserMessageKind::AmmoDenied),
        57 => Some(UserMessageKind::MarkAchievement),
        58 => Some(UserMessageKind::MatchStatsUpdate),
        59 => Some(UserMessageKind::ItemDrop),
        60 => Some(UserMessageKind::GlowPropTurnOff),
        61 => Some(UserMessageKind::SendPlayerItemDrops),
        62 => Some(UserMessageKind::RoundBackupFilenames),
        63 => Some(UserMessageKind::SendPlayerItemFound),
        64 => Some(UserMessageKind::ReportHit),
        65 => Some(UserMessageKind::XpUpdate),
        66 => Some(UserMessageKind::QuestProgress),
        67 => Some(UserMessageKind::ScoreLeaderboardData),
        68 => Some(UserMessageKind::PlayerDecalDigitalSignature),
        69 => Some(UserMessageKind::WeaponSound),
        70 => Some(UserMessageKind::UpdateScreenHealthBar),
        71 => Some(UserMessageKind::EntityOutlineHighlight),
        72 => Some(UserMessageKind::Ssui),
        73 => Some(UserMessageKind::SurvivalStats),
        75 => Some(UserMessageKind::EndOfMatchAllPlayersData),
        76 => Some(UserMessageKind::RoundImpactScoreData),
        77 => Some(UserMessageKind::CurrentRoundOdds),
        78 => Some(UserMessageKind::DeepStats),
        _ => None,
    }
}

impl UserMessageKind {
    pub open spec fn spec_code(self) -> i32 {
        match self {
            UserMessageKind::VguiMenu => 1,
            UserMessageKind::Geiger => 2,
            UserMessageKind::Train => 3,
            UserMessageKind::HudText => 4,
            UserMessageKind::SayText => 5,
            UserMessageKind::SayText2 => 6,
            UserMessageKind::TextMsg => 7,
            UserMessageKind::HudMsg => 8,
            UserMessageKind::ResetHud => 9,
            UserMessageKind::GameTitle => 10,
            UserMessageKind::Shake => 12,
            UserMessageKind::Fade => 13,
            UserMessageKind::Rumble => 14,
            UserMessageKind::CloseCaption => 15,
            UserMessageKind::CloseCaptionDirect => 16,
            UserMessageKind::SendAudio => 17,
            UserMessageKind::RawAudio => 18,
            UserMessageKind::VoiceMask => 19,
            UserMessageKind::RequestState => 20,
            UserMessageKind::Damage => 21,
            UserMessageKind::RadioText => 22,
            UserMessageKind::HintText => 23,
            UserMessageKind::KeyHintText => 24,
            UserMessageKind::ProcessSpottedEntityUpdate => 25,
            UserMessageKind::ReloadEffect => 26,
            UserMessageKind::AdjustMoney => 27,
            UserMessageKind::StopSpectatorMode => 29,
            UserMessageKind::KillCam => 30,
            UserMessageKind::DesiredTimescale => 31,
            UserMessageKind::CurrentTimescale => 32,
            UserMessageKind::AchievementEvent => 33,
            UserMessageKind::MatchEndConditions => 34,
            UserMessageKind::DisconnectToLobby => 35,
            UserMessageKind::PlayerStatsUpdate => 36,
            UserMessageKind::DisplayInventory => 37,
            UserMessageKind::WarmupHasEnded => 38,
            UserMessageKind::ClientInfo => 39,
            UserMessageKind::XRankGet => 40,
            UserMessageKind::XRankUpd => 41,
            UserMessageKind::CallVoteFailed => 45,
            UserMessageKind::VoteStart => 46,
            UserMessageKind::VotePass => 47,
            UserMessageKind::VoteFailed => 48,
            UserMessageKind::VoteSetup => 49,
            UserMessageKind::ServerRankRevealAll => 50,
            UserMessageKind::SendLastKillerDamageToClient => 51,
            UserMessageKind::ServerRankUpdate => 52,
            UserMessageKind::ItemPickup => 53,
            UserMessageKind::ShowMenu => 54,
            UserMessageKind::BarTime => 55,
            UserMessageKind::AmmoDenied => 56,
            UserMessageKind::MarkAchievement => 57,
            UserMessageKind::MatchStatsUpdate => 58,
            UserMessageKind::ItemDrop => 59,
            UserMessageKind::GlowPropTurnOff => 60,
            UserMessageKind::SendPlayerItemDrops => 61,
            UserMessageKind::RoundBackupFilenames => 62,
            UserMessageKind::SendPlayerItemFound => 63,
            UserMessageKind::ReportHit => 64,
            UserMessageKind::XpUpdate => 65,
            UserMessageKind::QuestProgress => 66,
            UserMessageKind::ScoreLeaderboardData => 67,
            UserMessageKind::PlayerDecalDigitalSignature => 68,
            UserMessageKind::WeaponSound => 69,
            UserMessageKind::UpdateScreenHealthBar => 70,
            UserMessageKind::EntityOutlineHighlight => 71,
            UserMessageKind::Ssui => 72,
            UserMessageKind::SurvivalStats => 73,
            UserMessageKind::EndOfMatchAllPlayersData => 75,
            UserMessageKind::RoundImpactScoreData => 76,
            UserMessageKind::CurrentRoundOdds => 77,
            UserMessageKind::DeepStats => 78,
        }
    }

    /// Looks `code` up in the catalog.
    pub fn from_code(code: i32) -> (r: Option<UserMessageKind>)
        ensures
            r == user_message_kind_of(code),
    {
        match code {
            1 => Some(UserMessageKind::VguiMenu),
            2 => Some(UserMessageKind::Geiger),
            3 => Some(UserMessageKind::Train),
            4 => Some(UserMessageKind::HudText),
            5 => Some(UserMessageKind::SayText),
            6 => Some(UserMessageKind::SayText2),
            7 => Some(UserMessageKind::TextMsg),
            8 => Some(UserMessageKind::HudMsg),
            9 => Some(UserMessageKind::ResetHud),
            10 => Some(UserMessageKind::GameTitle),
            12 => Some(UserMessageKind::Shake),
            13 => Some(UserMessageKind::Fade),
            14 => Some(UserMessageKind::Rumble),
            15 => Some(UserMessageKind::CloseCaption),
            16 => Some(UserMessageKind::CloseCaptionDirect),
            17 => Some(UserMessageKind::SendAudio),
            18 => Some(UserMessageKind::RawAudio),
            19 => Some(UserMessageKind::VoiceMask),
            20 => Some(UserMessageKind::RequestState),
            21 => Some(UserMessageKind::Damage),
            22 => Some(UserMessageKind::RadioText),
            23 => Some(UserMessageKind::HintText),
            24 => Some(UserMessageKind::KeyHintText),
            25 => Some(UserMessageKind::ProcessSpottedEntityUpdate),
            26 => Some(UserMessageKind::ReloadEffect),
            27 => Some(UserMessageKind::AdjustMoney),
            29 => Some(UserMessageKind::StopSpectatorMode),
            30 => Some(UserMessageKind::KillCam),
            31 => Some(UserMessageKind::DesiredTimescale),
            32 => Some(UserMessageKind::CurrentTimescale),
            33 => Some(UserMessageKind::AchievementEvent),
            34 => Some(UserMessageKind::MatchEndConditions),
            35 => Some(UserMessageKind::DisconnectToLobby),
            36 => Some(UserMessageKind::PlayerStatsUpdate),
            37 => Some(UserMessageKind::DisplayInventory),
            38 => Some(UserMessageKind::WarmupHasEnded),
            39 => Some(UserMessageKind::ClientInfo),
            40 => Some(UserMessageKind::XRankGet),
            41 => Some(UserMessageKind::XRankUpd),
            45 => Some(UserMessageKind::CallVoteFailed),
            46 => Some(UserMessageKind::VoteStart),
            47 => Some(UserMessageKind::VotePass),
            48 => Some(UserMessageKind::VoteFailed),
            49 => Some(UserMessageKind::VoteSetup),
            50 => Some(UserMessageKind::ServerRankRevealAll),
            51 => Some(UserMessageKind::SendLastKillerDamageToClient),
            52 => Some(UserMessageKind::ServerRankUpdate),
            53 => Some(UserMessageKind::ItemPickup),
            54 => Some(UserMessageKind::ShowMenu),
            55 => Some(UserMessageKind::BarTime),
            56 => Some(UserMessageKind::AmmoDenied),
            57 => Some(UserMessageKind::MarkAchievement),
            58 => Some(UserMessageKind::MatchStatsUpdate),
            59 => Some(UserMessageKind::ItemDrop),
            60 => Some(UserMessageKind::GlowPropTurnOff),
            61 => Some(UserMessageKind::SendPlayerItemDrops),
            62 => Some(UserMessageKind::RoundBackupFilenames),
            63 => Some(UserMessageKind::SendPlayerItemFound),
            64 => Some(UserMessageKind::ReportHit),
            65 => Some(UserMessageKind::XpUpdate),
            66 => Some(UserMessageKind::QuestProgress),
            67 => Some(UserMessageKind::ScoreLeaderboardData),
            68 => Some(UserMessageKind::PlayerDecalDigitalSignature),
            69 => Some(UserMessageKind::WeaponSound),
            70 => Some(UserMessageKind::UpdateScreenHealthBar),
            71 => Some(UserMessageKind::EntityOutlineHighlight),
            72 => Some(UserMessageKind::Ssui),
            73 => Some(UserMessageKind::SurvivalStats),
            75 => Some(UserMessageKind::EndOfMatchAllPlayersData),
            76 => Some(UserMessageKind::RoundImpactScoreData),
            77 => Some(UserMessageKind::CurrentRoundOdds),
            78 => Some(UserMessageKind::DeepStats),
            _ => None,
        }
    }

    /// The code of this kind on the wire.
    pub fn code(&self) -> (r: i32)
        ensures
            r == self.spec_code(),
    {
        match self {
            UserMessageKind::VguiMenu => 1,
            UserMessageKind::Geiger => 2,
            UserMessageKind::Train => 3,
            UserMessageKind::HudText => 4,
            UserMessageKind::SayText => 5,
            UserMessageKind::SayText2 => 6,
            UserMessageKind::TextMsg => 7,
            UserMessageKind::HudMsg => 8,
            UserMessageKind::ResetHud => 9,
            UserMessageKind::GameTitle => 10,
            UserMessageKind::Shake => 12,
            UserMessageKind::Fade => 13,
            UserMessageKind::Rumble => 14,
            UserMessageKind::CloseCaption => 15,
            UserMessageKind::CloseCaptionDirect => 16,
            UserMessageKind::SendAudio => 17,
            UserMessageKind::RawAudio => 18,
            UserMessageKind::VoiceMask => 19,
            UserMessageKind::RequestState => 20,
            UserMessageKind::Damage => 21,
            UserMessageKind::RadioText => 22,
            UserMessageKind::HintText => 23,
            UserMessageKind::KeyHintText => 24,
            UserMessageKind::ProcessSpottedEntityUpdate => 25,
            UserMessageKind::ReloadEffect => 26,
            UserMessageKind::AdjustMoney => 27,
            UserMessageKind::StopSpectatorMode => 29,
            UserMessageKind::KillCam => 30,
            UserMessageKind::DesiredTimescale => 31,
            UserMessageKind::CurrentTimescale => 32,
            UserMessageKind::AchievementEvent => 33,
            UserMessageKind::MatchEndConditions => 34,
            UserMessageKind::DisconnectToLobby => 35,
            UserMessageKind::PlayerStatsUpdate => 36,
            UserMessageKind::DisplayInventory => 37,
            UserMessageKind::WarmupHasEnded => 38,
            UserMessageKind::ClientInfo => 39,
            UserMessageKind::XRankGet => 40,
            UserMessageKind::XRankUpd => 41,
            UserMessageKind::CallVoteFailed => 45,
            UserMessageKind::VoteStart => 46,
            UserMessageKind::VotePass => 47,
            UserMessageKind::VoteFailed => 48,
            UserMessageKind::VoteSetup => 49,
            UserMessageKind::ServerRankRevealAll => 50,
            UserMessageKind::SendLastKillerDamageToClient => 51,
            UserMessageKind::ServerRankUpdate => 52,
            UserMessageKind::ItemPickup => 53,
            UserMessageKind::ShowMenu => 54,
            UserMessageKind::BarTime => 55,
            UserMessageKind::AmmoDenied => 56,
            UserMessageKind::MarkAchievement => 57,
            UserMessageKind::MatchStatsUpdate => 58,
            UserMessageKind::ItemDrop => 59,
            UserMessageKind::GlowPropTurnOff => 60,
            UserMessageKind::SendPlayerItemDrops => 61,
            UserMessageKind::RoundBackupFilenames => 62,
            UserMessageKind::SendPlayerItemFound => 63,
            UserMessageKind::ReportHit => 64,
            UserMessageKind::XpUpdate => 65,
            UserMessageKind::QuestProgress => 66,
            UserMessageKind::ScoreLeaderboardData => 67,
            UserMessageKind::PlayerDecalDigitalSignature => 68,
            UserMessageKind::WeaponSound => 69,
            UserMessageKind::UpdateScreenHealthBar => 70,
            UserMessageKind::EntityOutlineHighlight => 71,
            UserMessageKind::Ssui => 72,
            UserMessageKind::SurvivalStats => 73,
            UserMessageKind::EndOfMatchAllPlayersData => 75,
            UserMessageKind::RoundImpactScoreData => 76,
            UserMessageKind::CurrentRoundOdds => 77,
            UserMessageKind::DeepStats => 78,
        }
    }

    /// Every kind is found again under its own code.
    pub proof fn lemma_code_round_trip(self)
        ensures
            user_message_kind_of(self.spec_code()) == Some(self),
    {
    }
}

/// A kind of message in a packet region: one of two disjoint code spaces.
#[derive(Clone, Copy, Debug, PartialEq, Eq, Structural)]
pub enum MessageKind {
    Net(NetKind),
    Svc(SvcKind),
}

/// The container catalog: the network family first, then the server one.
pub open spec fn message_kind_of(code: u32) -> Option<MessageKind> {
    match net_kind_of(code) {
        Some(k) => Some(MessageKind::Net(k)),
        None => match svc_kind_of(code) {
            Some(k) => Some(MessageKind::Svc(k)),
            None => None,
        },
    }
}

impl MessageKind {
    pub open spec fn spec_code(self) -> u32 {
        match self {
            MessageKind::Net(k) => k.spec_code(),
            MessageKind::Svc(k) => k.spec_code(),
        }
    }

    /// Looks `code` up in the network catalog, then in the server one.
    pub fn from_code(code: u32) -> (r: Option<MessageKind>)
        ensures
            r == message_kind_of(code),
    {
        match NetKind::from_code(code) {
            Some(k) => Some(MessageKind::Net(k)),
            None => match SvcKind::from_code(code) {
                Some(k) => Some(MessageKind::Svc(k)),
                None => None,
            },
        }
    }

    /// The code of this kind on the wire.
    pub fn code(&self) -> (r: u32)
        ensures
            r == self.spec_code(),
    {
        match self {
            MessageKind::Net(k) => k.code(),
            MessageKind::Svc(k) => k.code(),
        }
    }

    /// The two code spaces are disjoint, so every kind is found again under
    /// its own code.
    pub proof fn lemma_code_round_trip(self)
        ensures
            message_kind_of(self.spec_code()) == Some(self),
    {
        match self {
            MessageKind::Net(k) => k.lemma_code_round_trip(),
            MessageKind::Svc(k) => {
                k.lemma_code_round_trip();
            },
        }
    }
}

} // verus!
