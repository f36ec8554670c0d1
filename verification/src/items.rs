//! Item tables: jokers in the game's declared order, editions, rarities.

use vstd::prelude::*;

verus! {

/// Every joker, in Balatro 1.0.x's declared order.
#[derive(Clone, Copy, Debug, PartialEq, Eq, Structural)]
pub enum Joker {
    Joker, GreedyJoker, LustyJoker, WrathfulJoker, GluttonousJoker, JollyJoker,
    ZanyJoker, MadJoker, CrazyJoker, DrollJoker, SlyJoker, WilyJoker,
    CleverJoker, DeviousJoker, CraftyJoker, HalfJoker, JokerStencil,
    FourFingers, Mime, CreditCard, CeremonialDagger, Banner, MysticSummit,
    MarbleJoker, LoyaltyCard, EightBall, Misprint, Dusk, RaisedFist,
    ChaosTheClown, Fibonacci, SteelJoker, ScaryFace, AbstractJoker, DelayedGratification,
    HackJoker, PareidoliaJoker, GrosMichel, EvenSteven, OddTodd, Scholar,
    BusinessCard, Supernova, RideTheBus, SpaceJoker, Egg, Burglar, Blackboard,
    Runner, IceCreamJoker, DNA, Splash, BlueJoker, SixthSense, Constellation,
    Hiker, FacelessJoker, GreenJoker, Superposition, ToDoList, Cavendish,
    CardSharp, RedCard, Madness, SquareJoker, Seance, RiffRaff, Vampire,
    Shortcut, HologramJoker, Vagabond, Baron, CloudNine, Rocket, Obelisk,
    MidasMask, Luchador, Photograph, GiftCard, TurtleBean, Erosion, ReservedParking,
    MailInRebate, ToTheMoon, Hallucination, FortuneTeller, Juggler, Drunkard,
    StoneJoker, GoldenJoker, LuckyCat, BaseballCard, Bull, DietCola, TradingCard,
    FlashCard, Popcorn, SpareTrousers, AncientJoker, Ramen, WalkieTalkie,
    SeltzerJoker, Castle, SmileyFace, CampfireJoker, GoldenTicket, MrBones,
    Acrobat, SockAndBuskin, Swashbuckler, Troubadour, Certificate, SmearedJoker,
    Throwback, HangingChad, RoughGem, Bloodstone, Arrowhead, OnyxAgate, GlassJoker,
    ShowmanJoker, FlowerPot, Blueprint, WeeJoker, MerryAndy, OopsAllSixes, IdolJoker,
    SeeingDouble, Matador, HitTheRoad, TheDuo, TheTrio, TheFamily, TheOrder,
    TheTribe, StuntmanJoker, InvisibleJoker, BrainstormJoker, SatelliteJoker,
    ShootTheMoon, DriversLicense, CartomancerJoker, AstronomerJoker, BurntJoker,
    Bootstraps, CanioJoker, TriboulteJoker, YorickJoker, ChicotJoker, PerketJoker,
}

/// Edition of a card or joker.
#[derive(Clone, Copy, Debug, PartialEq, Eq, Structural)]
pub enum Edition {
    Base,
    Foil,
    Holographic,
    Polychrome,
    Negative,
}

/// Rarity of a joker.
#[derive(Clone, Copy, Debug, PartialEq, Eq, Structural)]
pub enum Rarity {
    Common,
    Uncommon,
    Rare,
    Legendary,
}

} // verus!
